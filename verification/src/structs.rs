//! Struct schemas.
use crate::field::Field;
use vstd::prelude::*;

verus! {

/// The schema of a struct.
#[derive(Debug, Clone, Copy)]
pub struct StructType<'a> {
    /// The name of the struct.
    pub name: &'a str,
    /// The fields of the struct.
    pub fields: &'a [Field<'a>],
    /// Sealed indicates whether new fields can be added to the struct.
    pub sealed: bool,
    /// The type selector of the struct: a hash of its name.
    pub type_selector: u64,
}

impl<'a> StructType<'a> {
    /// Create a new struct type.
    pub fn new(name: &'a str, fields: &'a [Field<'a>], sealed: bool, type_selector: u64) -> (s: Self)
        ensures
            s.name == name,
            s.fields == fields,
            s.sealed == sealed,
            s.type_selector == type_selector,
    {
        StructType { name, fields, sealed, type_selector }
    }
}

/// A type which describes its own struct schema.
pub trait StructSchema {
    /// The schema of the struct.
    spec fn spec_struct_type() -> StructType<'static>;

    /// The type selector of the struct: a hash of its name, unique within a schema.
    spec fn spec_type_selector() -> u64;

    /// The schema of the struct.
    fn struct_type() -> (s: StructType<'static>)
        ensures
            s == Self::spec_struct_type(),
    ;

    /// The type selector of the struct.
    fn type_selector() -> (t: u64)
        ensures
            t == Self::spec_type_selector(),
    ;
}

} // verus!
