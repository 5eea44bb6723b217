//! A decoder for a tag-based binary format: a byte string, raw or
//! compressed with gzip or zlib, becomes a tree of named, typed nodes, and
//! typed accessors answer queries on that tree.
//!
//! The format is written down as mathematics in [`wire`] and, in the other
//! direction, in [`encoding`]; the decoder in [`nbt_parser`] is proved to
//! compute exactly what [`wire`] says. [`round_trip`], [`truncation`] and
//! [`laws`] prove what follows for every input.

pub mod encoding;
pub mod inflate;
pub mod laws;
pub mod nbt_parser;
pub mod parse_error;
pub mod reader;
pub mod round_trip;
pub mod truncation;
pub mod types;
pub mod utf8;
pub mod wire;

pub use crate::parse_error::NbtParseError;
pub use crate::reader::ByteReader;
pub use crate::types::NbtTag;
