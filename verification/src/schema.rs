//! Schema types.
use crate::enums::EnumType;
use crate::structs::StructType;
use vstd::prelude::*;

verus! {

/// A type in a schema.
#[derive(Debug, Clone, Copy)]
pub enum SchemaType<'a> {
    /// An invalid type.
    Invalid,
    /// A struct type.
    Struct(StructType<'a>),
    /// An enum type.
    Enum(EnumType<'a>),
}

/// The name of a schema type.
pub open spec fn schema_type_name<'a>(t: SchemaType<'a>) -> &'a str {
    match t {
        SchemaType::Invalid => "",
        SchemaType::Struct(s) => s.name,
        SchemaType::Enum(e) => e.name,
    }
}

impl<'a> SchemaType<'a> {
    /// Get the name of the schema type: empty for an invalid type.
    pub fn name(&self) -> (r: &'a str)
        ensures
            r == schema_type_name(*self),
    {
        match self {
            SchemaType::Invalid => "",
            SchemaType::Struct(s) => s.name,
            SchemaType::Enum(e) => e.name,
        }
    }
}

impl<'a> Default for SchemaType<'a> {
    fn default() -> (r: Self)
        ensures
            r is Invalid,
    {
        SchemaType::Invalid
    }
}

} // verus!
