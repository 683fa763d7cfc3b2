//! The two ways in which the codec can fail.
use vstd::prelude::*;

verus! {

/// Why a value could not be encoded.
#[derive(Debug, Clone, Copy, PartialEq, Eq, Structural)]
pub enum EncodeError {
    /// The value is above the largest one the encoding can carry, `2^62 - 1`.
    ValueTooLarge,
}

/// Why no value could be decoded.
#[derive(Debug, Clone, Copy, PartialEq, Eq, Structural)]
pub enum DecodeError {
    /// The input ends before the width announced by its first byte (or is
    /// empty); more bytes may complete it.
    InsufficientData,
}

} // verus!
