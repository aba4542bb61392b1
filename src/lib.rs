//! Retrieval-augmented generation: splitting documents into token-bounded
//! chunks, planning their ingestion into a vector index, ranking search hits,
//! assembling prompt context and driving a streamed chat session.
pub mod text;
pub mod splitter;
pub mod index;
pub mod prompt;
pub mod ingest;
pub mod chat;
pub mod config;
