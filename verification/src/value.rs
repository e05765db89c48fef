//! Dynamic values and the schema types that describe them.
use crate::any::AnyMessage;
use crate::kind::Kind;
use vstd::prelude::*;

verus! {

/// A value of any schema type, held dynamically.
pub enum DynamicValue {
    /// An unsigned 8-bit integer.
    U8(u8),
    /// An unsigned 16-bit integer.
    U16(u16),
    /// An unsigned 32-bit integer.
    U32(u32),
    /// An unsigned 64-bit integer.
    U64(u64),
    /// An unsigned 128-bit integer.
    U128(u128),
    /// A signed 8-bit integer.
    I8(i8),
    /// A signed 16-bit integer.
    I16(i16),
    /// A signed 32-bit integer.
    I32(i32),
    /// A signed 64-bit integer.
    I64(i64),
    /// A signed 128-bit integer.
    I128(i128),
    /// A boolean.
    Bool(bool),
    /// A string.
    Str(String),
    /// A byte array.
    Bytes(Vec<u8>),
    /// A point in time, as nanoseconds since the unix epoch.
    Time(i128),
    /// A duration, in nanoseconds.
    Duration(i128),
    /// An account ID.
    AccountID(u128),
    /// A struct value: one value per field, in field order.
    Struct(Vec<DynamicValue>),
    /// A list value.
    List(Vec<DynamicValue>),
    /// An enum value: the discriminant and the variant's value, if it carries one.
    Enum(i32, Option<Box<DynamicValue>>),
    /// A message packed to run later. It has no binary or JSON form: no schema type is a
    /// message type, so the codecs never meet it as a value of a type.
    AnyMessage(AnyMessage),
    /// A nullable value.
    Nullable(Option<Box<DynamicValue>>),
}

/// The mathematical content of a [`DynamicValue`].
pub enum ValueModel {
    U8(u8),
    U16(u16),
    U32(u32),
    U64(u64),
    U128(u128),
    I8(i8),
    I16(i16),
    I32(i32),
    I64(i64),
    I128(i128),
    Bool(bool),
    Str(Seq<char>),
    Bytes(Seq<u8>),
    Time(i128),
    Duration(i128),
    AccountID(u128),
    Struct(Seq<ValueModel>),
    List(Seq<ValueModel>),
    Enum(i32, Option<Box<ValueModel>>),
    AnyMessage(AnyMessage),
    Nullable(Option<Box<ValueModel>>),
}

/// The model of a value.
pub open spec fn value_model(v: DynamicValue) -> ValueModel
    decreases v, 0nat,
{
    match v {
        DynamicValue::U8(x) => ValueModel::U8(x),
        DynamicValue::U16(x) => ValueModel::U16(x),
        DynamicValue::U32(x) => ValueModel::U32(x),
        DynamicValue::U64(x) => ValueModel::U64(x),
        DynamicValue::U128(x) => ValueModel::U128(x),
        DynamicValue::I8(x) => ValueModel::I8(x),
        DynamicValue::I16(x) => ValueModel::I16(x),
        DynamicValue::I32(x) => ValueModel::I32(x),
        DynamicValue::I64(x) => ValueModel::I64(x),
        DynamicValue::I128(x) => ValueModel::I128(x),
        DynamicValue::Bool(x) => ValueModel::Bool(x),
        DynamicValue::Str(s) => ValueModel::Str(s@),
        DynamicValue::Bytes(b) => ValueModel::Bytes(b@),
        DynamicValue::Time(x) => ValueModel::Time(x),
        DynamicValue::Duration(x) => ValueModel::Duration(x),
        DynamicValue::AccountID(x) => ValueModel::AccountID(x),
        DynamicValue::Struct(xs) => ValueModel::Struct(values_model(xs@)),
        DynamicValue::List(xs) => ValueModel::List(values_model(xs@)),
        DynamicValue::Enum(d, p) => ValueModel::Enum(
            d,
            match p {
                Some(b) => Some(Box::new(value_model(*b))),
                None => None,
            },
        ),
        DynamicValue::AnyMessage(m) => ValueModel::AnyMessage(m),
        DynamicValue::Nullable(p) => ValueModel::Nullable(
            match p {
                Some(b) => Some(Box::new(value_model(*b))),
                None => None,
            },
        ),
    }
}

/// The models of a sequence of values.
pub open spec fn values_model(xs: Seq<DynamicValue>) -> Seq<ValueModel>
    decreases xs, 1nat,
{
    if xs.len() == 0 {
        Seq::empty()
    } else {
        seq![value_model(xs[0])] + values_model(xs.drop_first())
    }
}

impl View for DynamicValue {
    type V = ValueModel;

    open spec fn view(&self) -> ValueModel {
        value_model(*self)
    }
}

/// The schema type of a struct field.
pub struct FieldType {
    /// The name of the field.
    pub name: String,
    /// The type of the field.
    pub ty: ValueType,
}

/// The schema type of an enum variant.
pub struct VariantType {
    /// The name of the variant.
    pub name: String,
    /// The discriminant of the variant.
    pub discriminant: i32,
    /// The type of the value the variant carries, if any.
    pub payload: Option<ValueType>,
}

/// The schema type of a value, as a tree.
pub enum ValueType {
    U8,
    U16,
    U32,
    U64,
    U128,
    I8,
    I16,
    I32,
    I64,
    I128,
    Bool,
    Str,
    Bytes,
    Time,
    Duration,
    AccountID,
    Struct(Vec<FieldType>),
    List(Box<ValueType>),
    Enum(Vec<VariantType>),
    Nullable(Box<ValueType>),
}

/// The kind of a value type.
pub open spec fn type_kind(t: ValueType) -> Kind
    decreases t,
{
    match t {
        ValueType::U8 => Kind::Uint8,
        ValueType::U16 => Kind::Uint16,
        ValueType::U32 => Kind::Uint32,
        ValueType::U64 => Kind::Uint64,
        ValueType::U128 => Kind::UInt128,
        ValueType::I8 => Kind::Int8,
        ValueType::I16 => Kind::Int16,
        ValueType::I32 => Kind::Int32,
        ValueType::I64 => Kind::Int64,
        ValueType::I128 => Kind::Int128,
        ValueType::Bool => Kind::Bool,
        ValueType::Str => Kind::String,
        ValueType::Bytes => Kind::Bytes,
        ValueType::Time => Kind::Time,
        ValueType::Duration => Kind::Duration,
        ValueType::AccountID => Kind::AccountID,
        ValueType::Struct(_) => Kind::Struct,
        ValueType::List(_) => Kind::List,
        ValueType::Enum(_) => Kind::Enum,
        ValueType::Nullable(t) => type_kind(*t),
    }
}

/// The index of the first variant with discriminant `d`, if any.
pub open spec fn first_variant(vs: Seq<VariantType>, d: i32) -> Option<int>
    decreases vs.len(),
{
    if vs.len() == 0 {
        None
    } else if vs[0].discriminant == d {
        Some(0)
    } else {
        match first_variant(vs.drop_first(), d) {
            Some(i) => Some(i + 1),
            None => None,
        }
    }
}

/// The index found by [`first_variant`] is in range and names a variant with that discriminant,
/// and no earlier variant has it.
pub proof fn lemma_first_variant(vs: Seq<VariantType>, d: i32)
    ensures
        match first_variant(vs, d) {
            Some(i) => 0 <= i < vs.len() && vs[i].discriminant == d && forall|j: int|
                0 <= j < i ==> vs[j].discriminant != d,
            None => forall|j: int| 0 <= j < vs.len() ==> vs[j].discriminant != d,
        },
    decreases vs.len(),
{
    if vs.len() > 0 {
        lemma_first_variant(vs.drop_first(), d);
        if vs[0].discriminant != d {
            match first_variant(vs.drop_first(), d) {
                Some(i) => {
                    assert forall|j: int| 0 <= j < i + 1 implies vs[j].discriminant != d by {
                        if j > 0 {
                            assert(vs[j] == vs.drop_first()[j - 1]);
                        }
                    }
                },
                None => {
                    assert forall|j: int| 0 <= j < vs.len() implies vs[j].discriminant != d by {
                        if j > 0 {
                            assert(vs[j] == vs.drop_first()[j - 1]);
                        }
                    }
                },
            }
        }
    }
}

/// Whether `v` is a value of type `t`.
pub open spec fn has_type(v: ValueModel, t: ValueType) -> bool
    decreases t, 0nat, 0nat,
{
    match (v, t) {
        (ValueModel::U8(_), ValueType::U8) => true,
        (ValueModel::U16(_), ValueType::U16) => true,
        (ValueModel::U32(_), ValueType::U32) => true,
        (ValueModel::U64(_), ValueType::U64) => true,
        (ValueModel::U128(_), ValueType::U128) => true,
        (ValueModel::I8(_), ValueType::I8) => true,
        (ValueModel::I16(_), ValueType::I16) => true,
        (ValueModel::I32(_), ValueType::I32) => true,
        (ValueModel::I64(_), ValueType::I64) => true,
        (ValueModel::I128(_), ValueType::I128) => true,
        (ValueModel::Bool(_), ValueType::Bool) => true,
        (ValueModel::Str(_), ValueType::Str) => true,
        (ValueModel::Bytes(_), ValueType::Bytes) => true,
        (ValueModel::Time(_), ValueType::Time) => true,
        (ValueModel::Duration(_), ValueType::Duration) => true,
        (ValueModel::AccountID(_), ValueType::AccountID) => true,
        (ValueModel::Struct(xs), ValueType::Struct(fs)) => fields_have_types(xs, fs@),
        (ValueModel::List(xs), ValueType::List(et)) => elems_have_type(xs, *et),
        (ValueModel::Enum(d, p), ValueType::Enum(vs)) => match first_variant(vs@, d) {
            None => false,
            Some(i) => match (p, vs@[i].payload) {
                (None, None) => true,
                (Some(b), Some(pt)) => {
                    proof {
                        lemma_first_variant(vs@, d);
                    }
                    has_type(*b, pt)
                },
                _ => false,
            },
        },
        (ValueModel::Nullable(p), ValueType::Nullable(it)) => match p {
            None => true,
            Some(b) => has_type(*b, *it),
        },
        _ => false,
    }
}

/// Whether `xs` holds one value of each field's type, in order.
pub open spec fn fields_have_types(xs: Seq<ValueModel>, fs: Seq<FieldType>) -> bool
    decreases fs, 1nat, 0nat,
{
    if fs.len() == 0 {
        xs.len() == 0
    } else {
        xs.len() > 0 && has_type(xs[0], fs[0].ty) && fields_have_types(xs.drop_first(), fs.drop_first())
    }
}

/// Whether every element of `xs` has type `t`.
pub open spec fn elems_have_type(xs: Seq<ValueModel>, t: ValueType) -> bool
    decreases t, 2nat, xs.len(),
{
    if xs.len() == 0 {
        true
    } else {
        has_type(xs[0], t) && elems_have_type(xs.drop_first(), t)
    }
}

} // verus!
