//! The ways in which decoding fails.

use vstd::prelude::*;

verus! {

/// Why a decoding stopped. Nothing is retried or repaired: the first
/// violation ends the operation.
#[derive(Debug, Clone, Copy, PartialEq, Eq, Structural)]
pub enum DecodeError {
    /// The bytes are not what the format allows at that place: the magic
    /// string, a page type flag, a reserved serial type.
    InvalidFormat,
    /// A page number beyond the page count, or a range that lies beyond the
    /// buffer it is taken from.
    OutOfRange,
    /// The bytes end before what they announce.
    Truncated,
    /// A value that cannot be read as its type: text that is not UTF-8, a
    /// varint without an end, bytes where a type has none.
    Encoding,
}

impl DecodeError {
    /// A short description, for a message to the user.
    pub fn describe(&self) -> (s: &'static str)
        ensures
            s == match *self {
                DecodeError::InvalidFormat => "invalid format",
                DecodeError::OutOfRange => "out of range",
                DecodeError::Truncated => "truncated input",
                DecodeError::Encoding => "invalid encoding",
            },
    {
        match self {
            DecodeError::InvalidFormat => "invalid format",
            DecodeError::OutOfRange => "out of range",
            DecodeError::Truncated => "truncated input",
            DecodeError::Encoding => "invalid encoding",
        }
    }
}

} // verus!
