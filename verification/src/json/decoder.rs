//! Decoding dynamic values from parsed JSON.
//!
//! The reverse of the encoder: numbers that fit in 32 bits are read from JSON numbers,
//! wider ones from decimal strings; bytes from standard base64 strings; an enum from its
//! variant's name, or from an object with the name under `type` and the payload under
//! `value`. A struct's fields may come in any order and may be missing, in which case they
//! hold their defaults; a field the struct does not have is refused.
use crate::binary::decode::lemma_values_model_push;
use crate::binary::encode::lemma_values_model_index;
use crate::digits::{parse_i128, parse_int, parse_u128};
use crate::dynamic::{default_fields, fields_default};
use crate::errors::DecodeError;
use crate::json::base64_text::base64_standard_decode;
use crate::text::str_eq;
use crate::value::{first_variant, lemma_first_variant, values_model, FieldType, DynamicValue, ValueModel, ValueType, VariantType};
use base64::Engine;
use vstd::prelude::*;
use vstd::utf8::encode_utf8;

verus! {

/// A parsed JSON value, holding what decoding reads of it.
pub enum JsonValue {
    /// `null`.
    Null,
    /// `true` or `false`.
    Bool(bool),
    /// A number, by the integers it reads as: unsigned and signed 64-bit, where it is one.
    Number { as_u64: Option<u64>, as_i64: Option<i64> },
    /// A string.
    String(String),
    /// An array.
    Array(Vec<JsonValue>),
    /// An object: its entries, each key once, in the order the parser hands them over.
    Object(Vec<(String, JsonValue)>),
}

#[verifier::external_type_specification]
#[verifier::external_body]
pub struct ExSerdeValue(serde_json::Value);

/// What `serde_json` parses JSON text into, taken node for node, where the text is valid JSON.
pub uninterp spec fn serde_parse(text: Seq<char>) -> Option<JsonValue>;

/// Calls `serde_json::from_str` for a `serde_json::Value` and converts the tree node for node
/// (a number by `as_u64` and `as_i64`, an object by its entries as the map yields them).
/// Claimed: the result is there exactly when the text parses, and depends on the text alone.
#[verifier::external_body]
fn parse_json_text(input: &str) -> (r: Option<JsonValue>)
    ensures
        r == serde_parse(input@),
{
    serde_json::from_str::<serde_json::Value>(input).ok().map(json_node)
}

/// The node-for-node conversion that `parse_json_text` applies to what `serde_json` parsed.
#[verifier::external_body]
fn json_node(v: serde_json::Value) -> JsonValue {
    match v {
        serde_json::Value::Null => JsonValue::Null,
        serde_json::Value::Bool(b) => JsonValue::Bool(b),
        serde_json::Value::Number(n) => JsonValue::Number { as_u64: n.as_u64(), as_i64: n.as_i64() },
        serde_json::Value::String(s) => JsonValue::String(s),
        serde_json::Value::Array(xs) => JsonValue::Array(xs.into_iter().map(json_node).collect()),
        serde_json::Value::Object(m) => JsonValue::Object(m.into_iter().map(|(k, x)| (k, json_node(x))).collect()),
    }
}

/// Calls `base64::engine::Engine::decode` on `base64::prelude::BASE64_STANDARD`.
/// Claimed: decoding succeeds exactly on the texts that are the padded standard encoding of some
/// bytes (the engine requires canonical padding and no trailing bits), and gives those bytes, as
/// [`base64_standard_decode`] states.
#[verifier::external_body]
fn base64_decode(text: &str) -> (r: Option<Vec<u8>>)
    ensures
        match (r, base64_standard_decode(text@)) {
            (Some(b), Some(sb)) => b@ == sb,
            (None, None) => true,
            _ => false,
        },
{
    base64::prelude::BASE64_STANDARD.decode(text).ok()
}

/// The key `type`.
pub open spec fn type_key() -> Seq<char> {
    seq!['t', 'y', 'p', 'e']
}

/// The key `value`.
pub open spec fn value_key() -> Seq<char> {
    seq!['v', 'a', 'l', 'u', 'e']
}

/// The value under `key` in an object's entries: the first one with that key.
pub open spec fn obj_get(es: Seq<(String, JsonValue)>, key: Seq<char>) -> Option<JsonValue>
    decreases es.len(),
{
    if es.len() == 0 {
        None
    } else if es[0].0@ == key {
        Some(es[0].1)
    } else {
        obj_get(es.drop_first(), key)
    }
}

/// The index of the first variant named `name`.
pub open spec fn variant_named(vs: Seq<VariantType>, name: Seq<char>) -> Option<int>
    decreases vs.len(),
{
    if vs.len() == 0 {
        None
    } else if vs[0].name@ == name {
        Some(0)
    } else {
        match variant_named(vs.drop_first(), name) {
            Some(i) => Some(i + 1),
            None => None,
        }
    }
}

/// The index of the first field named `name`.
pub open spec fn field_named(fs: Seq<FieldType>, name: Seq<char>) -> Option<int>
    decreases fs.len(),
{
    if fs.len() == 0 {
        None
    } else if fs[0].name@ == name {
        Some(0)
    } else {
        match field_named(fs.drop_first(), name) {
            Some(i) => Some(i + 1),
            None => None,
        }
    }
}

/// An unsigned number read from a JSON number, if it fits under `max`.
pub open spec fn small_unsigned(j: JsonValue, max: int) -> Result<int, DecodeError> {
    match j {
        JsonValue::Number { as_u64: Some(x), .. } => if x <= max {
            Ok(x as int)
        } else {
            Err(DecodeError::InvalidData)
        },
        _ => Err(DecodeError::InvalidData),
    }
}

/// A signed number read from a JSON number, if it lies between `min` and `max`.
pub open spec fn small_signed(j: JsonValue, min: int, max: int) -> Result<int, DecodeError> {
    match j {
        JsonValue::Number { as_i64: Some(x), .. } => if min <= x <= max {
            Ok(x as int)
        } else {
            Err(DecodeError::InvalidData)
        },
        _ => Err(DecodeError::InvalidData),
    }
}

/// A number read from a JSON string as `from_str` of a type from `min` to `max` reads it.
pub open spec fn wide_number(j: JsonValue, min: int, max: int) -> Result<int, DecodeError> {
    match j {
        JsonValue::String(s) => match parse_int(s@, min, max) {
            Some(x) => Ok(x),
            None => Err(DecodeError::InvalidData),
        },
        _ => Err(DecodeError::InvalidData),
    }
}

/// The value of type `t` that `j` holds, or the error decoding meets; `None` where
/// decoding reaches a time or a duration, which have no JSON form.
pub open spec fn json_decode(j: JsonValue, t: ValueType) -> Option<Result<ValueModel, DecodeError>>
    decreases t, 0nat,
{
    match t {
        ValueType::U8 => Some(
            match small_unsigned(j, u8::MAX as int) {
                Ok(x) => Ok(ValueModel::U8(x as u8)),
                Err(e) => Err(e),
            },
        ),
        ValueType::U16 => Some(
            match small_unsigned(j, u16::MAX as int) {
                Ok(x) => Ok(ValueModel::U16(x as u16)),
                Err(e) => Err(e),
            },
        ),
        ValueType::U32 => Some(
            match small_unsigned(j, u32::MAX as int) {
                Ok(x) => Ok(ValueModel::U32(x as u32)),
                Err(e) => Err(e),
            },
        ),
        ValueType::U64 => Some(
            match wide_number(j, 0, u64::MAX as int) {
                Ok(x) => Ok(ValueModel::U64(x as u64)),
                Err(e) => Err(e),
            },
        ),
        ValueType::U128 => Some(
            match wide_number(j, 0, u128::MAX as int) {
                Ok(x) => Ok(ValueModel::U128(x as u128)),
                Err(e) => Err(e),
            },
        ),
        ValueType::I8 => Some(
            match small_signed(j, i8::MIN as int, i8::MAX as int) {
                Ok(x) => Ok(ValueModel::I8(x as i8)),
                Err(e) => Err(e),
            },
        ),
        ValueType::I16 => Some(
            match small_signed(j, i16::MIN as int, i16::MAX as int) {
                Ok(x) => Ok(ValueModel::I16(x as i16)),
                Err(e) => Err(e),
            },
        ),
        ValueType::I32 => Some(
            match small_signed(j, i32::MIN as int, i32::MAX as int) {
                Ok(x) => Ok(ValueModel::I32(x as i32)),
                Err(e) => Err(e),
            },
        ),
        ValueType::I64 => Some(
            match wide_number(j, i64::MIN as int, i64::MAX as int) {
                Ok(x) => Ok(ValueModel::I64(x as i64)),
                Err(e) => Err(e),
            },
        ),
        ValueType::I128 => Some(
            match wide_number(j, i128::MIN as int, i128::MAX as int) {
                Ok(x) => Ok(ValueModel::I128(x as i128)),
                Err(e) => Err(e),
            },
        ),
        ValueType::AccountID => Some(
            match wide_number(j, 0, u128::MAX as int) {
                Ok(x) => Ok(ValueModel::AccountID(x as u128)),
                Err(e) => Err(e),
            },
        ),
        ValueType::Bool => Some(
            match j {
                JsonValue::Bool(b) => Ok(ValueModel::Bool(b)),
                _ => Err(DecodeError::InvalidData),
            },
        ),
        ValueType::Str => Some(
            match j {
                JsonValue::String(s) => Ok(ValueModel::Str(s@)),
                _ => Err(DecodeError::InvalidData),
            },
        ),
        ValueType::Bytes => Some(
            match j {
                JsonValue::String(s) => match base64_standard_decode(s@) {
                    Some(b) => Ok(ValueModel::Bytes(b)),
                    None => Err(DecodeError::InvalidData),
                },
                _ => Err(DecodeError::InvalidData),
            },
        ),
        ValueType::Time => None,
        ValueType::Duration => None,
        ValueType::Struct(fs) => match j {
            JsonValue::Object(es) => match decode_entries(es@, fs@, fields_default(fs@)) {
                Some(Ok(xs)) => Some(Ok(ValueModel::Struct(xs))),
                Some(Err(e)) => Some(Err(e)),
                None => None,
            },
            _ => Some(Err(DecodeError::InvalidData)),
        },
        ValueType::List(et) => match j {
            JsonValue::Array(xs) => match decode_elems(xs@, *et) {
                Some(Ok(ms)) => Some(Ok(ValueModel::List(ms))),
                Some(Err(e)) => Some(Err(e)),
                None => None,
            },
            _ => Some(Err(DecodeError::InvalidData)),
        },
        ValueType::Enum(vs) => match j {
            JsonValue::Object(es) => match obj_get(es@, type_key()) {
                Some(JsonValue::String(name)) => match variant_named(vs@, name@) {
                    Some(k) => match obj_get(es@, value_key()) {
                        Some(val) => decode_variant(vs@, vs@[k].discriminant, val),
                        None => Some(Err(DecodeError::InvalidData)),
                    },
                    None => Some(Err(DecodeError::InvalidData)),
                },
                _ => Some(Err(DecodeError::InvalidData)),
            },
            JsonValue::String(name) => match variant_named(vs@, name@) {
                Some(k) => decode_variant(vs@, vs@[k].discriminant, JsonValue::Null),
                None => Some(Err(DecodeError::InvalidData)),
            },
            _ => Some(Err(DecodeError::InvalidData)),
        },
        ValueType::Nullable(it) => match j {
            JsonValue::Null => Some(Ok(ValueModel::Nullable(None))),
            _ => match json_decode(j, *it) {
                Some(Ok(x)) => Some(Ok(ValueModel::Nullable(Some(Box::new(x))))),
                Some(Err(e)) => Some(Err(e)),
                None => None,
            },
        },
    }
}

/// The enum value with discriminant `d` and the payload, if its variant has one, that `val`
/// holds.
pub open spec fn decode_variant(vs: Seq<VariantType>, d: i32, val: JsonValue) -> Option<Result<ValueModel, DecodeError>>
    decreases vs, 1nat,
{
    match first_variant(vs, d) {
        None => Some(Err(DecodeError::UnknownField)),
        Some(k) => {
            proof {
                lemma_first_variant(vs, d);
            }
            match vs[k].payload {
                None => Some(Ok(ValueModel::Enum(d, None))),
                Some(pt) => match json_decode(val, pt) {
                    Some(Ok(x)) => Some(Ok(ValueModel::Enum(d, Some(Box::new(x))))),
                    Some(Err(e)) => Some(Err(e)),
                    None => None,
                },
            }
        },
    }
}

/// Decoding the entries `es` of an object into a struct with fields `fs`, starting from the
/// field values `acc`: each entry sets the first field of its name.
pub open spec fn decode_entries(es: Seq<(String, JsonValue)>, fs: Seq<FieldType>, acc: Seq<ValueModel>) -> Option<
    Result<Seq<ValueModel>, DecodeError>,
>
    decreases fs, 1nat, es.len(),
{
    if es.len() == 0 {
        Some(Ok(acc))
    } else {
        match field_named(fs, es[0].0@) {
            None => Some(Err(DecodeError::UnknownField)),
            Some(i) => {
                proof {
                    lemma_field_named(fs, es[0].0@);
                }
                match json_decode(es[0].1, fs[i].ty) {
                    Some(Ok(x)) => decode_entries(es.drop_first(), fs, acc.update(i, x)),
                    Some(Err(e)) => Some(Err(e)),
                    None => None,
                }
            },
        }
    }
}

/// Decoding the elements of an array, each of type `t`.
pub open spec fn decode_elems(xs: Seq<JsonValue>, t: ValueType) -> Option<Result<Seq<ValueModel>, DecodeError>>
    decreases t, 1nat, xs.len(),
{
    if xs.len() == 0 {
        Some(Ok(Seq::empty()))
    } else {
        match decode_elems(xs.drop_last(), t) {
            Some(Ok(ms)) => match json_decode(xs.last(), t) {
                Some(Ok(x)) => Some(Ok(ms.push(x))),
                Some(Err(e)) => Some(Err(e)),
                None => None,
            },
            other => other,
        }
    }
}

/// The index found by [`field_named`] is in range and names a field of that name.
pub proof fn lemma_field_named(fs: Seq<FieldType>, name: Seq<char>)
    ensures
        field_named(fs, name) matches Some(i) ==> 0 <= i < fs.len() && fs[i].name@ == name,
        field_named(fs, name) is None ==> forall|i: int| 0 <= i < fs.len() ==> fs[i].name@ != name,
    decreases fs.len(),
{
    if fs.len() > 0 {
        lemma_field_named(fs.drop_first(), name);
        assert forall|i: int| 0 < i < fs.len() implies fs[i] == fs.drop_first()[i - 1] by {}
    }
}

proof fn lemma_variant_named(vs: Seq<VariantType>, name: Seq<char>)
    ensures
        variant_named(vs, name) matches Some(i) ==> 0 <= i < vs.len() && vs[i].name@ == name,
        variant_named(vs, name) is None ==> forall|i: int| 0 <= i < vs.len() ==> vs[i].name@ != name,
    decreases vs.len(),
{
    if vs.len() > 0 {
        lemma_variant_named(vs.drop_first(), name);
        assert forall|i: int| 0 < i < vs.len() implies vs[i] == vs.drop_first()[i - 1] by {}
    }
}

proof fn lemma_obj_get(es: Seq<(String, JsonValue)>, key: Seq<char>)
    ensures
        obj_get(es, key) matches Some(v) ==> exists|i: int| 0 <= i < es.len() && es[i].0@ == key && es[i].1 == v && forall|j: int|
            0 <= j < i ==> es[j].0@ != key,
        obj_get(es, key) is None ==> forall|i: int| 0 <= i < es.len() ==> es[i].0@ != key,
    decreases es.len(),
{
    if es.len() > 0 {
        lemma_obj_get(es.drop_first(), key);
        assert forall|i: int| 0 < i < es.len() implies es[i] == es.drop_first()[i - 1] by {}
        if es[0].0@ != key {
            if let Some(v) = obj_get(es.drop_first(), key) {
                let i = choose|i: int| 0 <= i < es.drop_first().len() && es.drop_first()[i].0@ == key && es.drop_first()[i].1 == v
                    && forall|j: int| 0 <= j < i ==> es.drop_first()[j].0@ != key;
                assert(es[i + 1] == es.drop_first()[i]);
                assert forall|j: int| 0 <= j < i + 1 implies es[j].0@ != key by {
                    if j > 0 {
                        assert(es[j] == es.drop_first()[j - 1]);
                    }
                }
            }
        }
    }
}

/// The value under `key`, if any.
fn get_entry<'a>(es: &'a Vec<(String, JsonValue)>, key: &str) -> (r: Option<&'a JsonValue>)
    ensures
        match (r, obj_get(es@, key@)) {
            (Some(v), Some(w)) => *v == w,
            (None, None) => true,
            _ => false,
        },
{
    proof {
        lemma_obj_get(es@, key@);
    }
    let mut i: usize = 0;
    while i < es.len()
        invariant
            i <= es@.len(),
            forall|j: int| 0 <= j < i ==> es@[j].0@ != key@,
            obj_get(es@, key@) matches Some(v) ==> exists|k: int| 0 <= k < es@.len() && es@[k].0@ == key@ && es@[k].1 == v
                && forall|j: int| 0 <= j < k ==> es@[j].0@ != key@,
            obj_get(es@, key@) is None ==> forall|k: int| 0 <= k < es@.len() ==> es@[k].0@ != key@,
        decreases es@.len() - i,
    {
        if str_eq(es[i].0.as_str(), key) {
            return Some(&es[i].1);
        }
        i = i + 1;
    }
    None
}

/// The index of the first variant named `name`.
fn find_variant_named(vs: &Vec<VariantType>, name: &str) -> (r: Option<usize>)
    ensures
        match (r, variant_named(vs@, name@)) {
            (Some(i), Some(j)) => i == j,
            (None, None) => true,
            _ => false,
        },
{
    proof {
        lemma_variant_named(vs@, name@);
    }
    let mut i: usize = 0;
    while i < vs.len()
        invariant
            i <= vs@.len(),
            forall|j: int| 0 <= j < i ==> vs@[j].name@ != name@,
            variant_named(vs@, name@) matches Some(k) ==> 0 <= k < vs@.len() && vs@[k].name@ == name@,
            variant_named(vs@, name@) is None ==> forall|k: int| 0 <= k < vs@.len() ==> vs@[k].name@ != name@,
        decreases vs@.len() - i,
    {
        if str_eq(vs[i].name.as_str(), name) {
            proof {
                lemma_first_named(vs@, name@, i as int);
            }
            return Some(i);
        }
        i = i + 1;
    }
    None
}

pub(crate) proof fn lemma_first_named(vs: Seq<VariantType>, name: Seq<char>, i: int)
    requires
        0 <= i < vs.len(),
        vs[i].name@ == name,
        forall|j: int| 0 <= j < i ==> vs[j].name@ != name,
    ensures
        variant_named(vs, name) == Some(i),
    decreases i,
{
    if i > 0 {
        assert forall|j: int| 0 <= j < i - 1 implies vs.drop_first()[j].name@ != name by {
            assert(vs.drop_first()[j] == vs[j + 1]);
        }
        lemma_first_named(vs.drop_first(), name, i - 1);
    }
}

pub(crate) proof fn lemma_first_field_named(fs: Seq<FieldType>, name: Seq<char>, i: int)
    requires
        0 <= i < fs.len(),
        fs[i].name@ == name,
        forall|j: int| 0 <= j < i ==> fs[j].name@ != name,
    ensures
        field_named(fs, name) == Some(i),
    decreases i,
{
    if i > 0 {
        assert forall|j: int| 0 <= j < i - 1 implies fs.drop_first()[j].name@ != name by {
            assert(fs.drop_first()[j] == fs[j + 1]);
        }
        lemma_first_field_named(fs.drop_first(), name, i - 1);
    }
}

/// The index of the first field named `name`.
fn find_field_named(fs: &Vec<FieldType>, name: &str) -> (r: Option<usize>)
    ensures
        match (r, field_named(fs@, name@)) {
            (Some(i), Some(j)) => i == j,
            (None, None) => true,
            _ => false,
        },
{
    proof {
        lemma_field_named(fs@, name@);
    }
    let mut i: usize = 0;
    while i < fs.len()
        invariant
            i <= fs@.len(),
            forall|j: int| 0 <= j < i ==> fs@[j].name@ != name@,
            field_named(fs@, name@) matches Some(k) ==> 0 <= k < fs@.len() && fs@[k].name@ == name@,
            field_named(fs@, name@) is None ==> forall|k: int| 0 <= k < fs@.len() ==> fs@[k].name@ != name@,
        decreases fs@.len() - i,
    {
        if str_eq(fs[i].name.as_str(), name) {
            proof {
                lemma_first_field_named(fs@, name@, i as int);
            }
            return Some(i);
        }
        i = i + 1;
    }
    None
}

/// The index of the first variant with discriminant `d`.
fn find_discriminant(vs: &Vec<VariantType>, d: i32) -> (r: Option<usize>)
    ensures
        match (r, first_variant(vs@, d)) {
            (Some(i), Some(j)) => i == j,
            (None, None) => true,
            _ => false,
        },
{
    proof {
        lemma_first_variant(vs@, d);
    }
    let mut i: usize = 0;
    while i < vs.len()
        invariant
            i <= vs@.len(),
            forall|j: int| 0 <= j < i ==> vs@[j].discriminant != d,
            match first_variant(vs@, d) {
                Some(k) => 0 <= k < vs@.len() && vs@[k].discriminant == d && forall|j: int|
                    0 <= j < k ==> vs@[j].discriminant != d,
                None => forall|j: int| 0 <= j < vs@.len() ==> vs@[j].discriminant != d,
            },
        decreases vs@.len() - i,
    {
        if vs[i].discriminant == d {
            return Some(i);
        }
        i = i + 1;
    }
    None
}

/// Whether an executable decoding outcome is the one a spec outcome describes.
pub open spec fn outcome_is(r: Option<Result<DynamicValue, DecodeError>>, s: Option<Result<ValueModel, DecodeError>>) -> bool {
    match (r, s) {
        (None, None) => true,
        (Some(Ok(v)), Some(Ok(m))) => v@ == m,
        (Some(Err(e)), Some(Err(se))) => e == se,
        _ => false,
    }
}

/// The value of type `t` that `j` holds, or the error decoding meets; `None` where decoding
/// reaches a time or a duration, which have no JSON form.
pub fn try_decode_json(j: &JsonValue, t: &ValueType) -> (r: Option<Result<DynamicValue, DecodeError>>)
    ensures
        outcome_is(r, json_decode(*j, *t)),
    decreases *t, 0nat,
{
    match t {
        ValueType::Struct(fs) => match j {
            JsonValue::Object(es) => match decode_struct_entries(es, fs) {
                Some(Ok(xs)) => Some(Ok(DynamicValue::Struct(xs))),
                Some(Err(e)) => Some(Err(e)),
                None => None,
            },
            _ => Some(Err(DecodeError::InvalidData)),
        },
        ValueType::List(et) => match j {
            JsonValue::Array(xs) => match decode_list_elems(xs, et) {
                Some(Ok(vs)) => Some(Ok(DynamicValue::List(vs))),
                Some(Err(e)) => Some(Err(e)),
                None => None,
            },
            _ => Some(Err(DecodeError::InvalidData)),
        },
        ValueType::Enum(vs) => decode_enum(j, vs),
        ValueType::Nullable(it) => match j {
            JsonValue::Null => Some(Ok(DynamicValue::Nullable(None))),
            _ => match try_decode_json(j, it) {
                Some(Ok(x)) => Some(Ok(DynamicValue::Nullable(Some(Box::new(x))))),
                other => other,
            },
        },
        ValueType::Time => None,
        ValueType::Duration => None,
        _ => Some(decode_scalar_json(j, t)),
    }
}

/// The value of type `t` that `j` holds, or the error decoding meets.
pub fn decode_json(j: &JsonValue, t: &ValueType) -> (r: Result<DynamicValue, DecodeError>)
    requires
        json_decode(*j, *t) is Some,
    ensures
        outcome_is(Some(r), json_decode(*j, *t)),
{
    match try_decode_json(j, t) {
        Some(r) => r,
        None => Err(DecodeError::InvalidData),
    }
}

/// What decoding JSON text as a value of type `t` gives: `None` where decoding reaches a time
/// or a duration, which have no JSON form.
pub open spec fn json_text_decode(text: Seq<char>, t: ValueType) -> Option<Result<ValueModel, DecodeError>> {
    match serde_parse(text) {
        None => Some(Err(DecodeError::InvalidData)),
        Some(j) => json_decode(j, t),
    }
}

/// The value of type `t` that the JSON text `input` holds: `InvalidData` where the text is not
/// JSON, else what decoding its tree gives.
pub fn decode_value(input: &str, t: &ValueType) -> (r: Result<DynamicValue, DecodeError>)
    requires
        json_text_decode(input@, *t) is Some,
    ensures
        serde_parse(input@) is None ==> r == Err::<DynamicValue, DecodeError>(DecodeError::InvalidData),
        outcome_is(Some(r), json_text_decode(input@, *t)),
{
    match parse_json_text(input) {
        None => Err(DecodeError::InvalidData),
        Some(j) => decode_json(&j, t),
    }
}

/// As `decode_value`, and `None` where decoding reaches a time or a duration.
pub fn try_decode_value(input: &str, t: &ValueType) -> (r: Option<Result<DynamicValue, DecodeError>>)
    ensures
        outcome_is(r, json_text_decode(input@, *t)),
{
    match parse_json_text(input) {
        None => Some(Err(DecodeError::InvalidData)),
        Some(j) => match try_decode_json(&j, t) {
            None => None,
            Some(_) => Some(decode_value(input, t)),
        },
    }
}

/// The value of scalar type `t` (not a struct, list, enum or nullable) that `j` holds.
fn decode_scalar_json(j: &JsonValue, t: &ValueType) -> (r: Result<DynamicValue, DecodeError>)
    requires
        !(t is Struct || t is List || t is Enum || t is Nullable || t is Time || t is Duration),
    ensures
        match (r, json_decode(*j, *t)) {
            (Ok(v), Some(Ok(m))) => v@ == m,
            (Err(e), Some(Err(se))) => e == se,
            _ => false,
        },
{
    match t {
        ValueType::U8 => match j {
            JsonValue::Number { as_u64: Some(x), .. } => if *x <= 0xff {
                Ok(DynamicValue::U8(*x as u8))
            } else {
                Err(DecodeError::InvalidData)
            },
            _ => Err(DecodeError::InvalidData),
        },
        ValueType::U16 => match j {
            JsonValue::Number { as_u64: Some(x), .. } => if *x <= 0xffff {
                Ok(DynamicValue::U16(*x as u16))
            } else {
                Err(DecodeError::InvalidData)
            },
            _ => Err(DecodeError::InvalidData),
        },
        ValueType::U32 => match j {
            JsonValue::Number { as_u64: Some(x), .. } => if *x <= 0xffff_ffff {
                Ok(DynamicValue::U32(*x as u32))
            } else {
                Err(DecodeError::InvalidData)
            },
            _ => Err(DecodeError::InvalidData),
        },
        ValueType::I8 => match j {
            JsonValue::Number { as_i64: Some(x), .. } => if -128 <= *x && *x <= 127 {
                Ok(DynamicValue::I8(*x as i8))
            } else {
                Err(DecodeError::InvalidData)
            },
            _ => Err(DecodeError::InvalidData),
        },
        ValueType::I16 => match j {
            JsonValue::Number { as_i64: Some(x), .. } => if -32768 <= *x && *x <= 32767 {
                Ok(DynamicValue::I16(*x as i16))
            } else {
                Err(DecodeError::InvalidData)
            },
            _ => Err(DecodeError::InvalidData),
        },
        ValueType::I32 => match j {
            JsonValue::Number { as_i64: Some(x), .. } => if -2147483648 <= *x && *x <= 2147483647 {
                Ok(DynamicValue::I32(*x as i32))
            } else {
                Err(DecodeError::InvalidData)
            },
            _ => Err(DecodeError::InvalidData),
        },
        ValueType::U64 => match j {
            JsonValue::String(s) => match parse_u128(s.as_str()) {
                Some(x) => if x <= 0xffff_ffff_ffff_ffff {
                    Ok(DynamicValue::U64(x as u64))
                } else {
                    Err(DecodeError::InvalidData)
                },
                None => Err(DecodeError::InvalidData),
            },
            _ => Err(DecodeError::InvalidData),
        },
        ValueType::U128 => match j {
            JsonValue::String(s) => match parse_u128(s.as_str()) {
                Some(x) => Ok(DynamicValue::U128(x)),
                None => Err(DecodeError::InvalidData),
            },
            _ => Err(DecodeError::InvalidData),
        },
        ValueType::AccountID => match j {
            JsonValue::String(s) => match parse_u128(s.as_str()) {
                Some(x) => Ok(DynamicValue::AccountID(x)),
                None => Err(DecodeError::InvalidData),
            },
            _ => Err(DecodeError::InvalidData),
        },
        ValueType::I64 => match j {
            JsonValue::String(s) => match parse_i128(s.as_str()) {
                Some(x) => if -0x8000_0000_0000_0000 <= x && x <= 0x7fff_ffff_ffff_ffff {
                    Ok(DynamicValue::I64(x as i64))
                } else {
                    Err(DecodeError::InvalidData)
                },
                None => Err(DecodeError::InvalidData),
            },
            _ => Err(DecodeError::InvalidData),
        },
        ValueType::I128 => match j {
            JsonValue::String(s) => match parse_i128(s.as_str()) {
                Some(x) => Ok(DynamicValue::I128(x)),
                None => Err(DecodeError::InvalidData),
            },
            _ => Err(DecodeError::InvalidData),
        },
        ValueType::Bool => match j {
            JsonValue::Bool(b) => Ok(DynamicValue::Bool(*b)),
            _ => Err(DecodeError::InvalidData),
        },
        ValueType::Str => match j {
            JsonValue::String(s) => Ok(DynamicValue::Str(s.clone())),
            _ => Err(DecodeError::InvalidData),
        },
        ValueType::Bytes => match j {
            JsonValue::String(s) => match base64_decode(s.as_str()) {
                Some(b) => Ok(DynamicValue::Bytes(b)),
                None => Err(DecodeError::InvalidData),
            },
            _ => Err(DecodeError::InvalidData),
        },
        _ => Err(DecodeError::InvalidData),
    }
}

/// The enum value with variants `vs` that `j` holds.
fn decode_enum(j: &JsonValue, vs: &Vec<VariantType>) -> (r: Option<Result<DynamicValue, DecodeError>>)
    ensures
        outcome_is(r, json_decode(*j, ValueType::Enum(*vs))),
    decreases *vs, 2nat,
{
    match j {
        JsonValue::Object(es) => {
            proof {
                reveal_strlit("type");
                reveal_strlit("value");
                assert("type"@ =~= type_key());
                assert("value"@ =~= value_key());
            }
            match get_entry(es, "type") {
                Some(tv) => match tv {
                    JsonValue::String(name) => match find_variant_named(vs, name.as_str()) {
                        Some(k) => {
                            proof {
                                lemma_variant_named(vs@, name@);
                            }
                            match get_entry(es, "value") {
                                Some(val) => decode_payload(vs, vs[k].discriminant, val),
                                None => Some(Err(DecodeError::InvalidData)),
                            }
                        },
                        None => Some(Err(DecodeError::InvalidData)),
                    },
                    _ => Some(Err(DecodeError::InvalidData)),
                },
                None => Some(Err(DecodeError::InvalidData)),
            }
        },
        JsonValue::String(name) => match find_variant_named(vs, name.as_str()) {
            Some(k) => {
                proof {
                    lemma_variant_named(vs@, name@);
                }
                let null = JsonValue::Null;
                decode_payload(vs, vs[k].discriminant, &null)
            },
            None => Some(Err(DecodeError::InvalidData)),
        },
        _ => Some(Err(DecodeError::InvalidData)),
    }
}

/// The enum value with discriminant `d`, with the payload that `val` holds if its variant
/// has one.
fn decode_payload(vs: &Vec<VariantType>, d: i32, val: &JsonValue) -> (r: Option<Result<DynamicValue, DecodeError>>)
    ensures
        outcome_is(r, decode_variant(vs@, d, *val)),
    decreases *vs, 1nat,
{
    proof {
        lemma_first_variant(vs@, d);
    }
    match find_discriminant(vs, d) {
        None => Some(Err(DecodeError::UnknownField)),
        Some(k) => match &vs[k].payload {
            None => Some(Ok(DynamicValue::Enum(d, None))),
            Some(pt) => match try_decode_json(val, pt) {
                Some(Ok(x)) => Some(Ok(DynamicValue::Enum(d, Some(Box::new(x))))),
                Some(Err(e)) => Some(Err(e)),
                None => None,
            },
        },
    }
}

/// The fields of a struct with fields `fs` that the object entries `es` set, the others
/// holding their defaults.
fn decode_struct_entries(es: &Vec<(String, JsonValue)>, fs: &Vec<FieldType>) -> (r: Option<Result<Vec<DynamicValue>, DecodeError>>)
    ensures
        match (r, decode_entries(es@, fs@, fields_default(fs@))) {
            (None, None) => true,
            (Some(Ok(xs)), Some(Ok(ms))) => values_model(xs@) == ms,
            (Some(Err(e)), Some(Err(se))) => e == se,
            _ => false,
        },
    decreases *fs, 1nat,
{
    let mut xs = default_fields(fs);
    let ghost whole = decode_entries(es@, fs@, fields_default(fs@));
    let mut i: usize = 0;
    proof {
        assert(es@.skip(0) =~= es@);
        lemma_values_model_index(xs@);
        lemma_fields_default_len(fs@);
    }
    while i < es.len()
        invariant
            i <= es@.len(),
            whole == decode_entries(es@, fs@, fields_default(fs@)),
            whole == decode_entries(es@.skip(i as int), fs@, values_model(xs@)),
            xs@.len() == fs@.len(),
        decreases es@.len() - i,
    {
        let ghost rest = es@.skip(i as int);
        proof {
            assert(rest[0] == es@[i as int]);
            assert(rest.drop_first() =~= es@.skip(i + 1));
            lemma_values_model_index(xs@);
        }
        match find_field_named(fs, es[i].0.as_str()) {
            None => {
                return Some(Err(DecodeError::UnknownField));
            },
            Some(k) => {
                proof {
                    lemma_field_named(fs@, es@[i as int].0@);
                }
                match try_decode_json(&es[i].1, &fs[k].ty) {
                    Some(Ok(x)) => {
                        let ghost before = xs@;
                        xs.set(k, x);
                        proof {
                            lemma_values_model_index(before);
                            lemma_values_model_index(xs@);
                            assert(values_model(xs@) =~= values_model(before).update(k as int, x@));
                        }
                    },
                    Some(Err(e)) => {
                        return Some(Err(e));
                    },
                    None => {
                        return None;
                    },
                }
            },
        }
        i = i + 1;
    }
    proof {
        assert(es@.skip(i as int) =~= Seq::<(String, JsonValue)>::empty());
    }
    Some(Ok(xs))
}

pub(crate) proof fn lemma_fields_default_len(fs: Seq<FieldType>)
    ensures
        fields_default(fs).len() == fs.len(),
    decreases fs.len(),
{
    if fs.len() > 0 {
        lemma_fields_default_len(fs.drop_last());
    }
}

/// The elements, each of type `t`, that the array `xs` holds.
fn decode_list_elems(xs: &Vec<JsonValue>, t: &ValueType) -> (r: Option<Result<Vec<DynamicValue>, DecodeError>>)
    ensures
        match (r, decode_elems(xs@, *t)) {
            (None, None) => true,
            (Some(Ok(vs)), Some(Ok(ms))) => values_model(vs@) == ms,
            (Some(Err(e)), Some(Err(se))) => e == se,
            _ => false,
        },
    decreases *t, 1nat,
{
    let mut out: Vec<DynamicValue> = Vec::new();
    let mut i: usize = 0;
    proof {
        assert(xs@.take(0) =~= Seq::<JsonValue>::empty());
        assert(values_model(out@) =~= Seq::<ValueModel>::empty());
    }
    while i < xs.len()
        invariant
            i <= xs@.len(),
            decode_elems(xs@.take(i as int), *t) == Some(Ok::<Seq<ValueModel>, DecodeError>(values_model(out@))),
        decreases xs@.len() - i,
    {
        proof {
            assert(xs@.take(i + 1).drop_last() =~= xs@.take(i as int));
            assert(xs@.take(i + 1).last() == xs@[i as int]);
        }
        match try_decode_json(&xs[i], t) {
            Some(Ok(x)) => {
                let ghost before = out@;
                out.push(x);
                proof {
                    lemma_values_model_push(before, x);
                }
            },
            other => {
                proof {
                    lemma_decode_elems_stop(xs@, *t, i + 1);
                    assert(xs@.take(xs@.len() as int) =~= xs@);
                }
                return match other {
                    Some(Err(e)) => Some(Err(e)),
                    _ => None,
                };
            },
        }
        i = i + 1;
    }
    proof {
        assert(xs@.take(i as int) =~= xs@);
    }
    Some(Ok(out))
}

/// Where decoding the elements up to `k` stops, with an error or at a time or duration,
/// decoding all of them stops there too.
proof fn lemma_decode_elems_stop(xs: Seq<JsonValue>, t: ValueType, k: int)
    requires
        0 <= k <= xs.len(),
        !(decode_elems(xs.take(k), t) matches Some(Ok(_))),
    ensures
        decode_elems(xs.take(xs.len() as int), t) == decode_elems(xs.take(k), t),
    decreases xs.len() - k,
{
    if k < xs.len() {
        assert(xs.take(k + 1).drop_last() =~= xs.take(k));
        lemma_decode_elems_stop(xs, t, k + 1);
    }
}

} // verus!
