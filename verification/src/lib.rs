//! Decoder for the two known dialects of the "pak" game archive format:
//! trailer parsing, XOR deobfuscation, index and entry-table parsing, path
//! resolution, and block-based extraction, all verified over in-memory byte
//! buffers.

pub mod error;
pub mod pak_reader;
pub mod utils;
