//! Memory scopes for decoded values.
use vstd::prelude::*;

verus! {

/// A scope that decoded values may borrow from. Values decoded by this crate own their
/// data, so the scope holds nothing; it is kept so that decoding calls name their scope.
pub struct MemoryManager {}

impl MemoryManager {
    /// Create a new memory manager.
    pub fn new() -> (m: MemoryManager)
        ensures
            m == (MemoryManager {}),
    {
        MemoryManager {}
    }
}

} // verus!
