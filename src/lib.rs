//! Reading, editing and writing the chunk structure of PNG streams.

pub mod args;
pub mod chunk;
pub mod chunk_type;
pub mod commands;
pub mod error;
pub mod png;
pub mod text;
