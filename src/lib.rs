//! A codec for the PNG chunk layout: validated chunk type codes, checksummed
//! chunks, and a container that holds an ordered sequence of chunks behind
//! the fixed PNG signature.

pub mod bytes;
pub mod chunk;
pub mod chunk_type;
pub mod commands;
pub mod error;
pub mod png;
