//! The types that can be used in a schema, described at the type level.
//!
//! None of the marker types in this module are meant to be instantiated; they stand as type
//! parameters for the schema information that their [`Type`] implementation gives.
use crate::enums::{to_enum_type, EnumSchema};
use crate::field::Field;
use crate::kind::Kind;
use crate::schema::{schema_type_name, SchemaType};
use crate::structs::StructSchema;
use core::marker::PhantomData;
use vstd::prelude::*;

verus! {

/// What the schema knows of a type.
#[derive(Debug, Clone, Copy)]
pub struct TypeInfo {
    /// The kind of the type.
    pub kind: Kind,
    /// Whether the type is nullable.
    pub nullable: bool,
    /// The size limit of the type, in bytes.
    pub size_limit: Option<usize>,
    /// The element kind of a list type.
    pub element_kind: Option<Kind>,
    /// The schema type of this type that can be referred to by other types.
    pub schema_type: Option<SchemaType<'static>>,
}

/// The information of a plain type of the given kind.
pub open spec fn plain_info(kind: Kind) -> TypeInfo {
    TypeInfo { kind, nullable: false, size_limit: None, element_kind: None, schema_type: None }
}

fn plain(kind: Kind) -> (t: TypeInfo)
    ensures
        t == plain_info(kind),
{
    TypeInfo { kind, nullable: false, size_limit: None, element_kind: None, schema_type: None }
}

/// Implemented for all types that can be used in a schema.
pub trait Type {
    /// What the schema knows of the type.
    spec fn spec_info() -> TypeInfo;

    /// What the schema knows of the type.
    fn info() -> (t: TypeInfo)
        ensures
            t == Self::spec_info(),
    ;
}

/// Visits types.
pub trait TypeVisitor {
    /// Visit the type `T`.
    fn visit<T: Type>(&mut self);
}

/// Converts a type to an unnamed field of its kind and nullability, with the element kind of a
/// list type and the name of the struct or enum type it refers to, if any.
pub fn to_field<T: Type>() -> (f: Field<'static>)
    ensures
        f.name@ == Seq::<char>::empty(),
        f.kind == T::spec_info().kind,
        f.nullable == T::spec_info().nullable,
        f.element_kind == T::spec_info().element_kind,
        match T::spec_info().schema_type {
            Some(t) => f.referenced_type == Some(schema_type_name(t)),
            None => f.referenced_type is None,
        },
{
    let info = T::info();
    let name: &'static str = "";
    proof {
        reveal_strlit("");
    }
    let referenced_type = match info.schema_type {
        Some(t) => Some(t.name()),
        None => None,
    };
    Field { name, kind: info.kind, nullable: info.nullable, element_kind: info.element_kind, referenced_type }
}

/// The name of the schema type referenced by `T`, or the empty string if it references none.
pub fn reference_type_name<T: Type>() -> (r: &'static str)
    ensures
        match T::spec_info().schema_type {
            Some(t) => r == schema_type_name(t),
            None => r@ == Seq::<char>::empty(),
        },
{
    match T::info().schema_type {
        Some(t) => t.name(),
        None => {
            proof {
                reveal_strlit("");
            }
            ""
        },
    }
}

impl Type for () {
    open spec fn spec_info() -> TypeInfo {
        plain_info(Kind::Invalid)
    }

    fn info() -> (t: TypeInfo) {
        plain(Kind::Invalid)
    }
}

impl Type for u8 {
    open spec fn spec_info() -> TypeInfo {
        plain_info(Kind::Uint8)
    }

    fn info() -> (t: TypeInfo) {
        plain(Kind::Uint8)
    }
}

impl Type for u16 {
    open spec fn spec_info() -> TypeInfo {
        plain_info(Kind::Uint16)
    }

    fn info() -> (t: TypeInfo) {
        plain(Kind::Uint16)
    }
}

impl Type for u32 {
    open spec fn spec_info() -> TypeInfo {
        plain_info(Kind::Uint32)
    }

    fn info() -> (t: TypeInfo) {
        plain(Kind::Uint32)
    }
}

impl Type for u64 {
    open spec fn spec_info() -> TypeInfo {
        plain_info(Kind::Uint64)
    }

    fn info() -> (t: TypeInfo) {
        plain(Kind::Uint64)
    }
}

impl Type for i8 {
    open spec fn spec_info() -> TypeInfo {
        plain_info(Kind::Int8)
    }

    fn info() -> (t: TypeInfo) {
        plain(Kind::Int8)
    }
}

impl Type for i16 {
    open spec fn spec_info() -> TypeInfo {
        plain_info(Kind::Int16)
    }

    fn info() -> (t: TypeInfo) {
        plain(Kind::Int16)
    }
}

impl Type for i32 {
    open spec fn spec_info() -> TypeInfo {
        plain_info(Kind::Int32)
    }

    fn info() -> (t: TypeInfo) {
        plain(Kind::Int32)
    }
}

impl Type for i64 {
    open spec fn spec_info() -> TypeInfo {
        plain_info(Kind::Int64)
    }

    fn info() -> (t: TypeInfo) {
        plain(Kind::Int64)
    }
}

impl Type for bool {
    open spec fn spec_info() -> TypeInfo {
        plain_info(Kind::Bool)
    }

    fn info() -> (t: TypeInfo) {
        plain(Kind::Bool)
    }
}

/// An unsigned integer of `N` bytes.
pub struct UIntNT<const N: usize>;

impl<const N: usize> Type for UIntNT<N> {
    open spec fn spec_info() -> TypeInfo {
        TypeInfo { size_limit: Some(N), ..plain_info(Kind::UInt128) }
    }

    fn info() -> (t: TypeInfo) {
        TypeInfo { size_limit: Some(N), ..plain(Kind::UInt128) }
    }
}

/// A signed integer of `N` bytes.
pub struct IntNT<const N: usize>;

impl<const N: usize> Type for IntNT<N> {
    open spec fn spec_info() -> TypeInfo {
        TypeInfo { size_limit: Some(N), ..plain_info(Kind::Int128) }
    }

    fn info() -> (t: TypeInfo) {
        TypeInfo { size_limit: Some(N), ..plain(Kind::Int128) }
    }
}

/// A string.
pub struct StrT;

impl Type for StrT {
    open spec fn spec_info() -> TypeInfo {
        plain_info(Kind::String)
    }

    fn info() -> (t: TypeInfo) {
        plain(Kind::String)
    }
}

/// A byte array.
pub struct BytesT;

impl Type for BytesT {
    open spec fn spec_info() -> TypeInfo {
        plain_info(Kind::Bytes)
    }

    fn info() -> (t: TypeInfo) {
        plain(Kind::Bytes)
    }
}

/// An account ID.
pub struct AccountIdT;

impl Type for AccountIdT {
    open spec fn spec_info() -> TypeInfo {
        plain_info(Kind::AccountID)
    }

    fn info() -> (t: TypeInfo) {
        plain(Kind::AccountID)
    }
}

/// A point in time.
pub struct TimeT;

impl Type for TimeT {
    open spec fn spec_info() -> TypeInfo {
        plain_info(Kind::Time)
    }

    fn info() -> (t: TypeInfo) {
        plain(Kind::Time)
    }
}

/// A duration.
pub struct DurationT;

impl Type for DurationT {
    open spec fn spec_info() -> TypeInfo {
        plain_info(Kind::Duration)
    }

    fn info() -> (t: TypeInfo) {
        plain(Kind::Duration)
    }
}

/// Any message.
pub struct AnyMessageT;

impl Type for AnyMessageT {
    open spec fn spec_info() -> TypeInfo {
        plain_info(Kind::AnyMessage)
    }

    fn info() -> (t: TypeInfo) {
        plain(Kind::AnyMessage)
    }
}

impl<T: Type> Type for Option<T> {
    open spec fn spec_info() -> TypeInfo {
        TypeInfo { nullable: true, ..T::spec_info() }
    }

    fn info() -> (t: TypeInfo) {
        TypeInfo { nullable: true, ..T::info() }
    }
}

/// A list whose elements have type `T`.
pub struct ListT<T> {
    _phantom: PhantomData<T>,
}

impl<T: Type> Type for ListT<T> {
    open spec fn spec_info() -> TypeInfo {
        TypeInfo {
            kind: Kind::List,
            nullable: false,
            size_limit: None,
            element_kind: Some(T::spec_info().kind),
            schema_type: T::spec_info().schema_type,
        }
    }

    fn info() -> (t: TypeInfo) {
        let inner = T::info();
        TypeInfo { kind: Kind::List, nullable: false, size_limit: None, element_kind: Some(inner.kind), schema_type: inner.schema_type }
    }
}

/// A struct type described by `T`.
pub struct StructT<T> {
    _phantom: PhantomData<T>,
}

impl<T: StructSchema> Type for StructT<T> {
    open spec fn spec_info() -> TypeInfo {
        TypeInfo { schema_type: Some(SchemaType::Struct(T::spec_struct_type())), ..plain_info(Kind::Struct) }
    }

    fn info() -> (t: TypeInfo) {
        TypeInfo { schema_type: Some(SchemaType::Struct(T::struct_type())), ..plain(Kind::Struct) }
    }
}

/// An enum type described by `T`.
pub struct EnumT<T> {
    _phantom: PhantomData<T>,
}

impl<T: EnumSchema> Type for EnumT<T> {
    open spec fn spec_info() -> TypeInfo {
        TypeInfo {
            schema_type: Some(SchemaType::Enum(crate::enums::EnumType {
                name: T::spec_name(),
                variants: T::spec_variants(),
                numeric_kind: T::spec_numeric_kind(),
                sealed: T::spec_sealed(),
            })),
            ..plain_info(Kind::Enum)
        }
    }

    fn info() -> (t: TypeInfo) {
        TypeInfo { schema_type: Some(SchemaType::Enum(to_enum_type::<T>())), ..plain(Kind::Enum) }
    }
}

/// A Rust type whose values a schema describes, and the marker type that describes them.
pub trait HasType {
    /// The marker type that describes values of this type.
    type Type: Type;
}

impl HasType for u8 {
    type Type = u8;
}

impl HasType for u16 {
    type Type = u16;
}

impl HasType for u32 {
    type Type = u32;
}

impl HasType for u64 {
    type Type = u64;
}

impl HasType for i8 {
    type Type = i8;
}

impl HasType for i16 {
    type Type = i16;
}

impl HasType for i32 {
    type Type = i32;
}

impl HasType for i64 {
    type Type = i64;
}

impl HasType for bool {
    type Type = bool;
}

impl HasType for u128 {
    type Type = UIntNT<16>;
}

impl HasType for i128 {
    type Type = IntNT<16>;
}

impl HasType for String {
    type Type = StrT;
}

impl<'a> HasType for &'a str {
    type Type = StrT;
}

impl HasType for Vec<u8> {
    type Type = BytesT;
}

impl<T: HasType> HasType for Option<T> {
    type Type = Option<T::Type>;
}

} // verus!
