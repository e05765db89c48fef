//! Well-known encoding types.
use vstd::prelude::*;

verus! {

/// The encoding of a message or state object.
#[derive(Debug, Clone, Copy, PartialEq, Eq, Structural)]
pub enum Encoding {
    /// An unknown, undecodable encoding.
    Unknown,
    /// The native binary encoding.
    NativeBinary,
}

impl Default for Encoding {
    fn default() -> (e: Self)
        ensures
            e == Encoding::Unknown,
    {
        Encoding::Unknown
    }
}

} // verus!
