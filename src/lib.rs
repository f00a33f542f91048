//! Building blocks for LLM-calling pipelines: a verified workflow-graph engine,
//! URL helpers and the wire-format types of chat and embedding services.

pub mod chat_completions;
pub mod completions;
pub mod datetime;
pub mod embeddings;
pub mod error;
pub mod graph;
pub mod ollama;
pub mod sse;
pub mod utils;

pub use error::Error;
