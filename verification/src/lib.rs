//! A local context-memory engine: stores short text memories, ranks them by
//! relevance for an assistant mode, and assembles a token-budget-bounded
//! context bundle.

pub mod assemble;
pub mod backup;
pub mod config;
pub mod errors;
pub mod loglevel;
pub mod memory;
pub mod optimizer;
pub mod recovery;
pub mod relevance;
pub mod repository;
pub mod shutdown;
pub mod sqlite;
pub mod store;
pub mod text;
pub mod time;
pub mod tokenizer;
pub mod version;
