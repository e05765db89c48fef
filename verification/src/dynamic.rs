//! Default values of dynamic values, by type and by kind.
use crate::binary::decode::lemma_values_model_push;
use crate::any::AnyMessage;
use crate::kind::Kind;
use crate::json::encoder::field_default;
use crate::value::{has_type, type_kind, values_model, FieldType, DynamicValue, ValueModel, ValueType};
use vstd::prelude::*;

verus! {

/// The value a dynamic value of type `t` starts out as before it is decoded:
/// zero numbers, `false`, empty text and bytes, an empty list, an absent nullable,
/// the enum variant with discriminant zero and no payload, and a struct whose fields
/// all hold their own defaults.
pub open spec fn default_model(t: ValueType) -> ValueModel
    decreases t, 0nat,
{
    match t {
        ValueType::U8 => ValueModel::U8(0),
        ValueType::U16 => ValueModel::U16(0),
        ValueType::U32 => ValueModel::U32(0),
        ValueType::U64 => ValueModel::U64(0),
        ValueType::U128 => ValueModel::U128(0),
        ValueType::I8 => ValueModel::I8(0),
        ValueType::I16 => ValueModel::I16(0),
        ValueType::I32 => ValueModel::I32(0),
        ValueType::I64 => ValueModel::I64(0),
        ValueType::I128 => ValueModel::I128(0),
        ValueType::Bool => ValueModel::Bool(false),
        ValueType::Str => ValueModel::Str(Seq::empty()),
        ValueType::Bytes => ValueModel::Bytes(Seq::empty()),
        ValueType::Time => ValueModel::Time(0),
        ValueType::Duration => ValueModel::Duration(0),
        ValueType::AccountID => ValueModel::AccountID(0),
        ValueType::Struct(fs) => ValueModel::Struct(fields_default(fs@)),
        ValueType::List(_) => ValueModel::List(Seq::empty()),
        ValueType::Enum(_) => ValueModel::Enum(0, None),
        ValueType::Nullable(_) => ValueModel::Nullable(None),
    }
}

/// The defaults of a sequence of fields, in order.
pub open spec fn fields_default(fs: Seq<FieldType>) -> Seq<ValueModel>
    decreases fs, 1nat,
{
    if fs.len() == 0 {
        Seq::empty()
    } else {
        fields_default(fs.drop_last()).push(default_model(fs.last().ty))
    }
}

/// The default value of type `t`.
pub fn default_value(t: &ValueType) -> (r: DynamicValue)
    ensures
        r@ == default_model(*t),
    decreases *t, 0nat,
{
    match t {
        ValueType::U8 => DynamicValue::U8(0),
        ValueType::U16 => DynamicValue::U16(0),
        ValueType::U32 => DynamicValue::U32(0),
        ValueType::U64 => DynamicValue::U64(0),
        ValueType::U128 => DynamicValue::U128(0),
        ValueType::I8 => DynamicValue::I8(0),
        ValueType::I16 => DynamicValue::I16(0),
        ValueType::I32 => DynamicValue::I32(0),
        ValueType::I64 => DynamicValue::I64(0),
        ValueType::I128 => DynamicValue::I128(0),
        ValueType::Bool => DynamicValue::Bool(false),
        ValueType::Str => DynamicValue::Str(String::new()),
        ValueType::Bytes => DynamicValue::Bytes(Vec::new()),
        ValueType::Time => DynamicValue::Time(0),
        ValueType::Duration => DynamicValue::Duration(0),
        ValueType::AccountID => DynamicValue::AccountID(0),
        ValueType::Struct(fs) => DynamicValue::Struct(default_fields(fs)),
        ValueType::List(_) => {
            let xs: Vec<DynamicValue> = Vec::new();
            proof {
                assert(values_model(xs@) =~= Seq::<ValueModel>::empty());
            }
            DynamicValue::List(xs)
        },
        ValueType::Enum(_) => DynamicValue::Enum(0, None),
        ValueType::Nullable(_) => DynamicValue::Nullable(None),
    }
}

/// The defaults of the fields `fs`, in order.
pub(crate) fn default_fields(fs: &Vec<FieldType>) -> (r: Vec<DynamicValue>)
    ensures
        values_model(r@) == fields_default(fs@),
    decreases fs, 1nat,
{
    let mut xs: Vec<DynamicValue> = Vec::new();
    let mut i: usize = 0;
    proof {
        assert(values_model(xs@) =~= Seq::<ValueModel>::empty());
        assert(fs@.take(0) =~= Seq::<FieldType>::empty());
    }
    while i < fs.len()
        invariant
            i <= fs@.len(),
            values_model(xs@) == fields_default(fs@.take(i as int)),
        decreases fs@.len() - i,
    {
        let x = default_value(&fs[i].ty);
        let ghost old_xs = xs@;
        xs.push(x);
        proof {
            lemma_values_model_push(old_xs, x);
            assert(fs@.take(i + 1).drop_last() =~= fs@.take(i as int));
            assert(fs@.take(i + 1).last() == fs@[i as int]);
        }
        i = i + 1;
    }
    proof {
        assert(fs@.take(i as int) =~= fs@);
    }
    xs
}

/// What [`default_for_kind`] gives for a kind and the type it refers to, if any.
pub open spec fn kind_default(kind: Kind, ref_type: Option<ValueType>) -> Result<ValueModel, ()> {
    match kind {
        Kind::Struct => match ref_type {
            Some(ValueType::Struct(fs)) => Ok(ValueModel::Struct(fields_default(fs@))),
            _ => Err(()),
        },
        Kind::Enum => match ref_type {
            Some(ValueType::Enum(_)) => Ok(ValueModel::Enum(0, None)),
            _ => Err(()),
        },
        Kind::String => Ok(ValueModel::Str(Seq::empty())),
        Kind::Bytes => Ok(ValueModel::Bytes(Seq::empty())),
        Kind::Int8 => Ok(ValueModel::I8(0)),
        Kind::Uint8 => Ok(ValueModel::U8(0)),
        Kind::Int16 => Ok(ValueModel::I16(0)),
        Kind::Uint16 => Ok(ValueModel::U16(0)),
        Kind::Int32 => Ok(ValueModel::I32(0)),
        Kind::Uint32 => Ok(ValueModel::U32(0)),
        Kind::Int64 => Ok(ValueModel::I64(0)),
        Kind::Uint64 => Ok(ValueModel::U64(0)),
        Kind::Int128 => Ok(ValueModel::I128(0)),
        Kind::UInt128 => Ok(ValueModel::U128(0)),
        Kind::Bool => Ok(ValueModel::Bool(false)),
        Kind::Time => Ok(ValueModel::Time(0)),
        Kind::Duration => Ok(ValueModel::Duration(0)),
        Kind::AccountID => Ok(ValueModel::AccountID(0)),
        Kind::AnyMessage => Ok(ValueModel::AnyMessage(AnyMessage::Empty)),
        _ => Err(()),
    }
}

/// The value a dynamic value of kind `kind` starts out as; for a packed message, the empty one.
/// A struct or enum kind needs the struct or enum type it refers to; a list kind has no
/// default here (a list's default comes from its type, see [`default_value`]).
pub fn default_for_kind(kind: Kind, ref_type: Option<&ValueType>) -> (r: Result<DynamicValue, ()>)
    requires
        kind != Kind::Invalid,
    ensures
        match (r, kind_default(
            kind,
            match ref_type {
                Some(t) => Some(*t),
                None => None,
            },
        )) {
            (Ok(v), Ok(m)) => v@ == m,
            (Err(()), Err(())) => true,
            _ => false,
        },
{
    match kind {
        Kind::Struct => match ref_type {
            Some(t) => match t {
                ValueType::Struct(fs) => Ok(DynamicValue::Struct(default_fields(fs))),
                _ => Err(()),
            },
            None => Err(()),
        },
        Kind::Enum => match ref_type {
            Some(t) => match t {
                ValueType::Enum(_) => Ok(DynamicValue::Enum(0, None)),
                _ => Err(()),
            },
            None => Err(()),
        },
        Kind::String => Ok(DynamicValue::Str(String::new())),
        Kind::Bytes => Ok(DynamicValue::Bytes(Vec::new())),
        Kind::Int8 => Ok(DynamicValue::I8(0)),
        Kind::Uint8 => Ok(DynamicValue::U8(0)),
        Kind::Int16 => Ok(DynamicValue::I16(0)),
        Kind::Uint16 => Ok(DynamicValue::U16(0)),
        Kind::Int32 => Ok(DynamicValue::I32(0)),
        Kind::Uint32 => Ok(DynamicValue::U32(0)),
        Kind::Int64 => Ok(DynamicValue::I64(0)),
        Kind::Uint64 => Ok(DynamicValue::U64(0)),
        Kind::Int128 => Ok(DynamicValue::I128(0)),
        Kind::UInt128 => Ok(DynamicValue::U128(0)),
        Kind::Bool => Ok(DynamicValue::Bool(false)),
        Kind::Time => Ok(DynamicValue::Time(0)),
        Kind::Duration => Ok(DynamicValue::Duration(0)),
        Kind::AccountID => Ok(DynamicValue::AccountID(0)),
        Kind::AnyMessage => Ok(DynamicValue::AnyMessage(AnyMessage::Empty)),
        _ => Err(()),
    }
}

/// The default of a kind is the default value of the types of that kind: for every type that
/// is neither a list nor nullable, asking for the default of its kind, with the type itself as
/// the type referred to, gives the type's default value; and for every type that is not a
/// struct, enum, list or nullable, the type referred to makes no difference, and the default
/// is a value of that type which, but for a time or a duration, a JSON struct field leaves out
/// as holding nothing (zero, `false`, empty). A packed message starts out empty.
pub proof fn lemma_kind_default_is_type_default(t: ValueType, other: Option<ValueType>)
    ensures
        !(t is List) && !(t is Nullable) ==> kind_default(type_kind(t), Some(t)) == Ok::<ValueModel, ()>(default_model(t)),
        !(t is List) && !(t is Nullable) && !(t is Struct) && !(t is Enum) ==> kind_default(type_kind(t), other)
            == Ok::<ValueModel, ()>(default_model(t)),
        !(t is List) && !(t is Nullable) && !(t is Struct) && !(t is Enum) ==> (kind_default(type_kind(t), other)
            matches Ok(v) && has_type(v, t) && (t is Time || t is Duration || field_default(v))),
        kind_default(Kind::AnyMessage, other) == Ok::<ValueModel, ()>(ValueModel::AnyMessage(AnyMessage::Empty)),
{
}

} // verus!
