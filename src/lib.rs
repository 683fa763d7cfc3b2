//! A compact, self-describing encoding of unsigned integers below 2^62.
//!
//! The two most significant bits of the first byte select the width of the
//! encoding (1, 2, 4 or 8 bytes); the remaining bits, read big-endian, hold
//! the value.
pub mod big_endian;
pub mod error;
pub mod varint;

pub use error::{DecodeError, EncodeError};
pub use varint::{VarInt, MAX_INT_8};
