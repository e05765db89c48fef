//! Versioned key-value state on disk, and tracing of the keys that reads touch.
pub mod store;
pub mod laws;
pub mod tracer;

use vstd::prelude::*;

verus! {

/// Read access to key-value state.
pub trait State {
    /// Whether `r` is an answer this state may give to a read of `key`.
    spec fn may_answer(&self, key: Seq<u8>, r: Result<Option<Vec<u8>>, String>) -> bool;

    /// The value stored under `key`, if any, or an error message.
    fn get(&self, key: &[u8]) -> (r: Result<Option<Vec<u8>>, String>)
        ensures
            self.may_answer(key@, r),
    ;
}

} // verus!
