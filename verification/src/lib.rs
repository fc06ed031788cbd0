//! Indexing and chunking logic for searching AI agent sessions and notes.

pub mod text;
pub mod config;
pub mod dates;
pub mod turns;
pub mod sources;
pub mod catalog;
pub mod sync;
pub mod search;

