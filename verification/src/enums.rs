//! Enum schemas.
use crate::errors::DecodeError;
use crate::field::Field;
use crate::kind::Kind;
use crate::text::str_eq;
use vstd::prelude::*;

verus! {

/// An enum type.
#[derive(Debug, Clone, Copy)]
pub struct EnumType<'a> {
    /// The name of the enum.
    pub name: &'a str,
    /// The variants of the enum.
    pub variants: &'a [EnumVariantDefinition<'a>],
    /// The numeric kind of the enum's discriminant.
    pub numeric_kind: Kind,
    /// Whether the enum is sealed or not.
    pub sealed: bool,
}

/// A definition of an enum variant.
#[derive(Debug, Clone, Copy)]
pub struct EnumVariantDefinition<'a> {
    /// The name of the variant.
    pub name: &'a str,
    /// The discriminant of the variant.
    pub discriminant: i32,
    /// The value of the variant, if any. Variants carry zero or one value.
    pub value: Option<Field<'a>>,
}

impl<'a> EnumVariantDefinition<'a> {
    /// Create a new enum variant definition.
    pub fn new(name: &'a str, discriminant: i32, value: Option<Field<'a>>) -> (v: Self)
        ensures
            v.name == name,
            v.discriminant == discriminant,
            v.value == value,
    {
        EnumVariantDefinition { name, discriminant, value }
    }
}

/// Whether `k` may hold the discriminant of an enum.
pub open spec fn is_enum_numeric_kind(k: Kind) -> bool {
    k == Kind::Int32 || k == Kind::Uint16 || k == Kind::Int16 || k == Kind::Uint8 || k == Kind::Int8
}

/// A type which describes its own enum schema.
pub trait EnumSchema: Sized {
    /// The name of the enum.
    spec fn spec_name() -> &'static str;

    /// The variants of the enum.
    spec fn spec_variants() -> &'static [EnumVariantDefinition<'static>];

    /// Whether the enum is sealed.
    spec fn spec_sealed() -> bool;

    /// The kind of the enum's discriminant.
    spec fn spec_numeric_kind() -> Kind;

    /// The name of the enum.
    fn name() -> (r: &'static str)
        ensures
            r == Self::spec_name(),
    ;

    /// The variants of the enum.
    fn variants() -> (r: &'static [EnumVariantDefinition<'static>])
        ensures
            r == Self::spec_variants(),
    ;

    /// Whether the enum is sealed.
    fn sealed() -> (r: bool)
        ensures
            r == Self::spec_sealed(),
    ;

    /// The kind of the enum's discriminant, one of the signed or unsigned integer kinds of
    /// at most 32 bits.
    fn numeric_kind() -> (r: Kind)
        ensures
            r == Self::spec_numeric_kind(),
            is_enum_numeric_kind(r),
    ;
}

/// Extract the enum type definition from a type which implements [`EnumSchema`].
pub fn to_enum_type<E: EnumSchema>() -> (t: EnumType<'static>)
    ensures
        t.name == E::spec_name(),
        t.variants == E::spec_variants(),
        t.numeric_kind == E::spec_numeric_kind(),
        t.sealed == E::spec_sealed(),
{
    EnumType { name: E::name(), variants: E::variants(), numeric_kind: E::numeric_kind(), sealed: E::sealed() }
}

/// Find the first variant of an enum with the given name.
pub fn find_variant<'a>(enum_type: &EnumType<'a>, name: &str) -> (r: Result<&'a EnumVariantDefinition<'a>, DecodeError>)
    ensures
        match r {
            Ok(v) => exists|i: int|
                0 <= i < enum_type.variants@.len() && enum_type.variants@[i] == *v && v.name@ == name@
                    && forall|j: int| 0 <= j < i ==> enum_type.variants@[j].name@ != name@,
            Err(e) => e == DecodeError::InvalidData && forall|j: int|
                0 <= j < enum_type.variants@.len() ==> enum_type.variants@[j].name@ != name@,
        },
{
    let vs = enum_type.variants;
    let mut i: usize = 0;
    while i < vs.len()
        invariant
            vs == enum_type.variants,
            i <= vs@.len(),
            forall|j: int| 0 <= j < i ==> vs@[j].name@ != name@,
        decreases vs@.len() - i,
    {
        if str_eq(vs[i].name, name) {
            return Ok(&vs[i]);
        }
        i = i + 1;
    }
    Err(DecodeError::InvalidData)
}

/// Find the first variant of an enum with the given discriminant.
pub fn find_variant_by_discriminant<'a>(enum_type: &EnumType<'a>, discriminant: i32) -> (r: Option<&'a EnumVariantDefinition<'a>>)
    ensures
        match r {
            Some(v) => exists|i: int|
                0 <= i < enum_type.variants@.len() && enum_type.variants@[i] == *v && v.discriminant == discriminant
                    && forall|j: int| 0 <= j < i ==> enum_type.variants@[j].discriminant != discriminant,
            None => forall|j: int|
                0 <= j < enum_type.variants@.len() ==> enum_type.variants@[j].discriminant != discriminant,
        },
{
    let vs = enum_type.variants;
    let mut i: usize = 0;
    while i < vs.len()
        invariant
            vs == enum_type.variants,
            i <= vs@.len(),
            forall|j: int| 0 <= j < i ==> vs@[j].discriminant != discriminant,
        decreases vs@.len() - i,
    {
        if vs[i].discriminant == discriminant {
            return Some(&vs[i]);
        }
        i = i + 1;
    }
    None
}

} // verus!
