//! Encoding and decoding errors.
use vstd::prelude::*;

verus! {

/// An error that occurs while decoding.
#[derive(Debug, Clone, Copy, PartialEq, Eq, Structural)]
pub enum DecodeError {
    /// The input ended before the value did.
    OutOfData,
    /// The input holds data that is not a valid encoding.
    InvalidData,
    /// The input names a field or variant that the schema does not know.
    UnknownField,
}

/// An error that occurs while encoding.
#[derive(Debug, Clone, Copy, PartialEq, Eq, Structural)]
pub enum EncodeError {
    /// The output buffer is too small.
    BufferTooSmall,
    /// The value cannot be encoded.
    UnknownError,
}

} // verus!
