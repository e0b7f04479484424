//! Decoder for FIGfont files: the header line with its comment block, and the
//! character records that follow it.
//!
//! Every function here works on bytes already held in memory. A
//! [`reader::LineReader`] walks through the bytes of a font line by line; the
//! decoders take their lines from it and leave it behind what they have
//! read, ready for the next record.

pub mod bytes;
pub mod character;
pub mod error;
pub mod grapheme;
pub mod header;
pub mod number;
pub mod reader;
mod text;

pub use error::ParseError;
