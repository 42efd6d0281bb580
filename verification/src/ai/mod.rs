//! Requests to language models, and what their replies mean.
pub mod errors;
pub mod laws;
pub mod openai;
pub mod replies;
pub mod reply_laws;
