//! Incremental indexing of a directory of text files into a vector store,
//! with a query cache and conversation sessions.
//!
//! The modules hold the logic of the tool: chunking, change detection
//! between runs, batching of embedding work, the query cache, the session
//! manager and the shaping of requests to and responses from the remote
//! services. Network and file access live with the caller.

pub mod chat;
pub mod chunker;
pub mod cli;
pub mod config;
pub mod diff;
pub mod digest;
pub mod index_state;
pub mod keyed;
pub mod query_cache;
pub mod remote;
pub mod session;
pub mod text;
