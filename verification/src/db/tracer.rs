//! Recording which keys reads looked up, and whether they found them.
use crate::db::State;
use vstd::prelude::*;

verus! {

/// One lookup a traced read made.
#[derive(Debug, PartialEq, Eq)]
pub enum KeyTrace {
    /// The key held a value.
    Found { key: Vec<u8> },
    /// The key held nothing.
    NotFound { key: Vec<u8> },
}

/// The model of a trace: whether the key was found, and the key.
pub open spec fn trace_model(t: KeyTrace) -> (bool, Seq<u8>) {
    match t {
        KeyTrace::Found { key } => (true, key@),
        KeyTrace::NotFound { key } => (false, key@),
    }
}

/// The models of a list of traces.
pub open spec fn traces_model(ts: Seq<KeyTrace>) -> Seq<(bool, Seq<u8>)> {
    ts.map_values(|t: KeyTrace| trace_model(t))
}

/// State that records every key read through it.
pub struct StateTracer<S> {
    db: S,
    traces: Vec<KeyTrace>,
}

impl<S> StateTracer<S> {
    /// The state read through.
    pub closed spec fn state(&self) -> S {
        self.db
    }

    /// The lookups recorded so far, oldest first.
    pub closed spec fn traces(&self) -> Seq<(bool, Seq<u8>)> {
        traces_model(self.traces@)
    }

    /// A tracer over `db` that has recorded nothing.
    pub fn new(db: S) -> (r: Self)
        ensures
            r.state() == db,
            r.traces() == Seq::<(bool, Seq<u8>)>::empty(),
    {
        let r = StateTracer { db, traces: Vec::new() };
        proof {
            assert(r.traces() =~= Seq::<(bool, Seq<u8>)>::empty());
        }
        r
    }

    /// The lookups recorded, oldest first.
    pub fn into_traces(self) -> (r: Vec<KeyTrace>)
        ensures
            traces_model(r@) == self.traces(),
    {
        self.traces
    }
}

impl<S: State> StateTracer<S> {
    /// Reads `key` from the underlying state and records whether a value was found; a read
    /// that fails records nothing.
    pub fn get(&mut self, key: &[u8]) -> (r: Result<Option<Vec<u8>>, String>)
        ensures
            final(self).state() == old(self).state(),
            old(self).state().may_answer(key@, r),
            match r {
                Ok(Some(_)) => final(self).traces() == old(self).traces().push((true, key@)),
                Ok(None) => final(self).traces() == old(self).traces().push((false, key@)),
                Err(_) => final(self).traces() == old(self).traces(),
            },
    {
        let result = self.db.get(key);
        match result {
            Ok(None) => {
                let k = vstd::slice::slice_to_vec(key);
                self.traces.push(KeyTrace::NotFound { key: k });
                proof {
                    assert(traces_model(self.traces@) =~= traces_model(old(self).traces@).push((false, key@)));
                }
                Ok(None)
            },
            Ok(Some(value)) => {
                let k = vstd::slice::slice_to_vec(key);
                self.traces.push(KeyTrace::Found { key: k });
                proof {
                    assert(traces_model(self.traces@) =~= traces_model(old(self).traces@).push((true, key@)));
                }
                Ok(Some(value))
            },
            Err(e) => Err(e),
        }
    }
}

} // verus!
