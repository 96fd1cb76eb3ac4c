//! A durable, queryable memory of past assistant conversations: transcripts
//! are parsed into user/assistant turns, kept in a snapshot-backed store,
//! and served back through a keyword-relevance search and a session-aware
//! context selector that decides what to remind the assistant of on each
//! new prompt.
#![verifier::loop_isolation(false)]

pub mod codec;
pub mod config;
pub mod embeddings;
pub mod inject;
pub mod json;
pub mod parser;
pub mod search;
pub mod status;
pub mod store;
pub mod text;
pub mod time;
pub mod types;
pub mod validation;
