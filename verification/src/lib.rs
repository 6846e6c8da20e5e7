//! Verified core of `vsgrep`, a ripgrep-like local semantic search tool:
//! the line-window chunker, the command-line model, the file-walk setup
//! and the pure parts of the embedding pipeline.

pub mod chunk;
pub mod chunk_laws;
pub mod cli;
pub mod embed;
pub mod lines;
pub mod std_types;
pub mod text;
pub mod walk;
