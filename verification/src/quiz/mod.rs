//! The daily quiz: questions whether two entities are the same, and the answers given to them.
pub mod candidates;
pub mod daily;
pub mod laws;
pub mod question_laws;
pub mod store;
