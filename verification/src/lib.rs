//! A verified codec for the chunk structure of PNG files.

pub mod args;
pub mod bigendian;
pub mod chunk;
pub mod chunk_type;
pub mod commands;
pub mod crc;
pub mod error;
pub mod png;
pub mod text;
