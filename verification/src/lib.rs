//! Decoder for a compact binary wire encoding of forum storage records
//! (categories, threads, posts), turning raw byte buffers into typed,
//! nested records according to a fixed positional layout: little-endian
//! fixed-width integers, compact variable-length length prefixes,
//! length-prefixed byte arrays, optional fields, and nested structs.

pub mod bytes_le;
pub mod codec;
pub mod encode;
pub mod error;
pub mod laws;
pub mod pipeline;
pub mod records;
pub mod types;
