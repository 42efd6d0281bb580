//! Chat with the documents of a library: what is looked up, what is asked, and what is answered.
pub mod chunk;
pub mod engine;
pub mod laws;
pub mod prompt;
pub mod prompt_laws;
pub mod query;
pub mod rank;
pub mod retrieval;
pub mod retrieval_laws;
pub mod search_laws;
pub mod suggest;
pub mod turn;
pub mod turn_laws;
pub mod years;
