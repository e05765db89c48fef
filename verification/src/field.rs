//! Field definition.
use crate::kind::Kind;
use vstd::prelude::*;

verus! {

/// A field in a type.
#[derive(Debug, Clone, Copy)]
pub struct Field<'a> {
    /// The name of the field.
    pub name: &'a str,
    /// The kind of the field.
    pub kind: Kind,
    /// Whether the field is nullable.
    pub nullable: bool,
    /// The element kind for list fields.
    pub element_kind: Option<Kind>,
    /// The referenced type for fields which reference another type.
    pub referenced_type: Option<&'a str>,
}

impl<'a> Field<'a> {
    /// Create a new field.
    pub fn new(name: &'a str, kind: Kind, nullable: bool, element_kind: Option<Kind>, referenced_type: Option<&'a str>) -> (f: Self)
        ensures
            f.name == name,
            f.kind == kind,
            f.nullable == nullable,
            f.element_kind == element_kind,
            f.referenced_type == referenced_type,
    {
        Field { name, kind, nullable, element_kind, referenced_type }
    }

    /// Returns a copy of the field with the provided name set.
    pub fn with_name(self, name: &'a str) -> (f: Self)
        ensures
            f.name == name,
            f.kind == self.kind,
            f.nullable == self.nullable,
            f.element_kind == self.element_kind,
            f.referenced_type == self.referenced_type,
    {
        Field { name, ..self }
    }
}

} // verus!
