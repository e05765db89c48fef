//! State object types.
use crate::field::Field;
use vstd::prelude::*;

verus! {

/// A type representing objects stored in key-value store state.
#[derive(Debug, Clone, Copy)]
pub struct StateObjectType<'a> {
    /// The name of the object.
    pub name: &'a str,
    /// The fields that make up the primary key.
    pub key_fields: &'a [Field<'a>],
    /// The fields that make up the value.
    pub value_fields: &'a [Field<'a>],
    /// Whether to retain deletions in off-chain, indexed state.
    pub retain_deletions: bool,
}

} // verus!
