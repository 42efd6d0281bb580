//! Chat with one's own documents, and a daily quiz on the entities they mention.
pub mod ai;
pub mod chat;
pub mod json;
pub mod order;
pub mod profile;
pub mod quiz;
pub mod record_laws;
pub mod score;
pub mod table;
pub mod text;
pub mod text_laws;
pub mod types;
