//! Reading, editing and writing the chunk-based container format of PNG files.
//!
//! A file is a fixed eight-byte signature followed by a sequence of chunks.
//! Each chunk is framed by a big-endian length, a four-byte type code, the
//! payload, and a CRC-32 over the type code and payload.
pub mod args;
pub mod chunk;
pub mod chunk_type;
pub mod commands;
pub mod error;
pub mod png;
pub mod text;
