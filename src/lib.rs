//! Decoder for the chunked asset container used by game data files.
//!
//! A container is a run of chunks, each a four-character identifier, a
//! 32-bit length and a payload that may itself be a chunk stream. The
//! decoder builds the tree of chunks and decodes the fixed-width records
//! of the texture chunks on demand.
pub mod data;
pub mod error;
pub mod header;
pub mod install;
pub mod laws;
pub mod texture;
