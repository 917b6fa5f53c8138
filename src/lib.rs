//! Sanskrit Linguistic Binary Codec.
//!
//! A binary encoding of Sanskrit that keeps Pāṇinian phonological structure
//! in the bits of each byte. Text in IAST is tokenized, packed into phoneme
//! bytes, framed in a chunked container, and decoded back to IAST or to
//! Devanāgarī. A small algebra of phonological operations works directly on
//! the packed bytes.

pub mod container;
pub mod decoder;
pub mod encoder;
pub mod numeral;
pub mod round_trip;
pub mod transform;
pub mod types;
mod text;
