//! Encoding dynamic values as JSON text.
//!
//! Numbers that fit in 32 bits are written as JSON numbers, wider ones as decimal strings;
//! bytes as standard base64 strings; an enum as its variant's name, or as an object with the
//! name under `type` and the payload under `value`. A struct's field that holds its default
//! (zero, `false`, empty, absent, the payload-less variant zero, or a struct none of whose
//! fields are written) is left out.
use crate::binary::encode::lemma_values_model_index;
use crate::digits::{digits, push_digits};
use crate::errors::EncodeError;
use crate::json::account_id::AccountIDStringCodec;
use crate::json::base64_text::base64_standard;
use crate::json::escape::{escape_chars, escape_json_inner};
use crate::value::{first_variant, lemma_first_variant, FieldType, DynamicValue, ValueModel, ValueType, VariantType};
use base64::Engine;
use vstd::prelude::*;
use vstd::utf8::encode_utf8;

verus! {

/// Calls `base64::engine::Engine::encode` on `base64::prelude::BASE64_STANDARD`.
/// Claimed: the text is the standard base64 encoding of the bytes with padding, as
/// [`base64_standard`] spells it out.
#[verifier::external_body]
fn base64_encode(bytes: &[u8]) -> (r: String)
    ensures
        r@ == base64_standard(bytes@),
{
    base64::prelude::BASE64_STANDARD.encode(bytes)
}

/// The ASCII bytes of ASCII characters.
pub open spec fn ascii_of(s: Seq<char>) -> Seq<u8> {
    s.map_values(|c: char| c as u8)
}

/// The decimal digits of a natural number, as bytes.
pub open spec fn decimal(x: nat) -> Seq<u8> {
    ascii_of(digits(x, 10))
}

/// The decimal form of an integer, with `-` before a negative one.
pub open spec fn signed_decimal(x: int) -> Seq<u8> {
    if x < 0 {
        seq![0x2du8] + decimal((-x) as nat)
    } else {
        decimal(x as nat)
    }
}

/// `s` between double quotes.
pub open spec fn quoted(s: Seq<u8>) -> Seq<u8> {
    seq![0x22u8] + s + seq![0x22u8]
}

/// The text `true`.
pub open spec fn json_true() -> Seq<u8> {
    seq![0x74u8, 0x72, 0x75, 0x65]
}

/// The text `false`.
pub open spec fn json_false() -> Seq<u8> {
    seq![0x66u8, 0x61, 0x6c, 0x73, 0x65]
}

/// The text `null`.
pub open spec fn json_null() -> Seq<u8> {
    seq![0x6eu8, 0x75, 0x6c, 0x6c]
}

/// The text `{"type":"`.
pub open spec fn enum_open() -> Seq<u8> {
    seq![0x7bu8, 0x22, 0x74, 0x79, 0x70, 0x65, 0x22, 0x3a, 0x22]
}

/// The text `","value":`.
pub open spec fn enum_mid() -> Seq<u8> {
    seq![0x22u8, 0x2c, 0x22, 0x76, 0x61, 0x6c, 0x75, 0x65, 0x22, 0x3a]
}

/// Whether every time and duration is absent from a value: the JSON encoding has no form
/// for them.
pub open spec fn json_encodable(v: ValueModel) -> bool
    decreases v, 0nat,
{
    match v {
        ValueModel::Time(_) => false,
        ValueModel::Duration(_) => false,
        ValueModel::Struct(xs) => all_encodable(xs),
        ValueModel::List(xs) => all_encodable(xs),
        ValueModel::Enum(_, p) => match p {
            Some(b) => json_encodable(*b),
            None => true,
        },
        ValueModel::Nullable(p) => match p {
            Some(b) => json_encodable(*b),
            None => true,
        },
        _ => true,
    }
}

/// Whether every value of a sequence is JSON-encodable.
pub open spec fn all_encodable(xs: Seq<ValueModel>) -> bool
    decreases xs, 2nat,
{
    if xs.len() == 0 {
        true
    } else {
        all_encodable(xs.drop_last()) && json_encodable(xs.last())
    }
}

/// The JSON text of a value of type `t`, or the error its encoding meets: a value of
/// another type than `t`, or an enum discriminant that names no variant.
pub open spec fn json_of(v: ValueModel, t: ValueType) -> Result<Seq<u8>, EncodeError>
    decreases v, 0nat,
{
    match (v, t) {
        (ValueModel::U8(x), ValueType::U8) => Ok(decimal(x as nat)),
        (ValueModel::U16(x), ValueType::U16) => Ok(decimal(x as nat)),
        (ValueModel::U32(x), ValueType::U32) => Ok(decimal(x as nat)),
        (ValueModel::U64(x), ValueType::U64) => Ok(quoted(decimal(x as nat))),
        (ValueModel::U128(x), ValueType::U128) => Ok(quoted(decimal(x as nat))),
        (ValueModel::I8(x), ValueType::I8) => Ok(signed_decimal(x as int)),
        (ValueModel::I16(x), ValueType::I16) => Ok(signed_decimal(x as int)),
        (ValueModel::I32(x), ValueType::I32) => Ok(signed_decimal(x as int)),
        (ValueModel::I64(x), ValueType::I64) => Ok(quoted(signed_decimal(x as int))),
        (ValueModel::I128(x), ValueType::I128) => Ok(quoted(signed_decimal(x as int))),
        (ValueModel::Bool(b), ValueType::Bool) => Ok(if b { json_true() } else { json_false() }),
        (ValueModel::Str(s), ValueType::Str) => Ok(quoted(encode_utf8(escape_chars(s)))),
        (ValueModel::Bytes(b), ValueType::Bytes) => Ok(quoted(encode_utf8(base64_standard(b)))),
        (ValueModel::AccountID(a), ValueType::AccountID) => Ok(quoted(decimal(a as nat))),
        (ValueModel::Struct(xs), ValueType::Struct(fs)) => match fields_json(xs, fs@) {
            Ok((body, _)) => Ok(seq![0x7bu8] + body + seq![0x7du8]),
            Err(e) => Err(e),
        },
        (ValueModel::List(xs), ValueType::List(et)) => match elems_json(xs, *et) {
            Ok(body) => Ok(seq![0x5bu8] + body + seq![0x5du8]),
            Err(e) => Err(e),
        },
        (ValueModel::Enum(d, p), ValueType::Enum(vs)) => match first_variant(vs@, d) {
            None => Err(EncodeError::UnknownError),
            Some(i) => {
                proof {
                    lemma_first_variant(vs@, d);
                }
                let name = encode_utf8(vs@[i].name@);
                match p {
                    None => Ok(quoted(name)),
                    Some(b) => match vs@[i].payload {
                        Some(pt) => match json_of(*b, pt) {
                            Ok(x) => Ok(enum_open() + name + enum_mid() + x + seq![0x7du8]),
                            Err(e) => Err(e),
                        },
                        None => Err(EncodeError::UnknownError),
                    },
                }
            },
        },
        (ValueModel::Nullable(p), ValueType::Nullable(it)) => match p {
            None => Ok(json_null()),
            Some(b) => json_of(*b, *it),
        },
        _ => Err(EncodeError::UnknownError),
    }
}

/// Whether a struct field holding `v` is left out as holding its default (a struct field
/// is left out when none of its own fields are written).
pub open spec fn field_default(v: ValueModel) -> bool {
    match v {
        ValueModel::U8(x) => x == 0,
        ValueModel::U16(x) => x == 0,
        ValueModel::U32(x) => x == 0,
        ValueModel::U64(x) => x == 0,
        ValueModel::U128(x) => x == 0,
        ValueModel::I8(x) => x == 0,
        ValueModel::I16(x) => x == 0,
        ValueModel::I32(x) => x == 0,
        ValueModel::I64(x) => x == 0,
        ValueModel::I128(x) => x == 0,
        ValueModel::Bool(b) => !b,
        ValueModel::Str(s) => s.len() == 0,
        ValueModel::Bytes(b) => b.len() == 0,
        ValueModel::AccountID(a) => a == 0,
        ValueModel::List(xs) => xs.len() == 0,
        ValueModel::Enum(d, p) => d == 0 && p is None,
        ValueModel::Nullable(p) => p is None,
        _ => false,
    }
}

/// The JSON text of a struct field holding `v` of type `t`, or nothing if it is left out.
pub open spec fn field_json(v: ValueModel, t: ValueType) -> Result<Option<Seq<u8>>, EncodeError>
    decreases v, 1nat,
{
    match (v, t) {
        (ValueModel::Struct(xs), ValueType::Struct(fs)) => match fields_json(xs, fs@) {
            Ok((body, n)) => if n == 0 {
                Ok(None)
            } else {
                Ok(Some(seq![0x7bu8] + body + seq![0x7du8]))
            },
            Err(e) => Err(e),
        },
        _ => if field_default(v) {
            Ok(None)
        } else {
            match json_of(v, t) {
                Ok(x) => Ok(Some(x)),
                Err(e) => Err(e),
            }
        },
    }
}

/// The text of one written field: its quoted name, a colon and its value.
pub open spec fn field_entry(f: FieldType, x: Seq<u8>) -> Seq<u8> {
    quoted(encode_utf8(f.name@)) + seq![0x3au8] + x
}

/// The fields written of a struct with field types `fs` holding `xs`, separated by commas,
/// and how many were written.
pub open spec fn fields_json(xs: Seq<ValueModel>, fs: Seq<FieldType>) -> Result<(Seq<u8>, nat), EncodeError>
    decreases xs, 2nat,
{
    if xs.len() != fs.len() {
        Err(EncodeError::UnknownError)
    } else if xs.len() == 0 {
        Ok((Seq::empty(), 0))
    } else {
        match fields_json(xs.drop_last(), fs.drop_last()) {
            Err(e) => Err(e),
            Ok((body, n)) => match field_json(xs.last(), fs.last().ty) {
                Err(e) => Err(e),
                Ok(None) => Ok((body, n)),
                Ok(Some(x)) => Ok(
                    (body + (if n > 0 { seq![0x2cu8] } else { Seq::empty() }) + field_entry(fs.last(), x), n + 1),
                ),
            },
        }
    }
}

/// The elements of a list of element type `t`, separated by commas.
pub open spec fn elems_json(xs: Seq<ValueModel>, t: ValueType) -> Result<Seq<u8>, EncodeError>
    decreases xs, 2nat,
{
    if xs.len() == 0 {
        Ok(Seq::empty())
    } else {
        match elems_json(xs.drop_last(), t) {
            Err(e) => Err(e),
            Ok(body) => match json_of(xs.last(), t) {
                Err(e) => Err(e),
                Ok(x) => Ok(body + (if xs.len() > 1 { seq![0x2cu8] } else { Seq::empty() }) + x),
            },
        }
    }
}

/// Appends the bytes of `src`.
fn push_bytes(out: &mut Vec<u8>, src: &[u8])
    ensures
        final(out)@ == old(out)@ + src@,
{
    let mut i: usize = 0;
    while i < src.len()
        invariant
            i <= src@.len(),
            out@ == old(out)@ + src@.take(i as int),
        decreases src@.len() - i,
    {
        out.push(src[i]);
        proof {
            assert(src@.take(i + 1) =~= src@.take(i as int).push(src@[i as int]));
        }
        i = i + 1;
    }
    proof {
        assert(src@.take(i as int) =~= src@);
    }
}

/// Appends the decimal digits of `x`.
fn push_decimal(out: &mut Vec<u8>, x: u128)
    ensures
        final(out)@ == old(out)@ + decimal(x as nat),
{
    let mut cs: Vec<char> = Vec::new();
    push_digits(&mut cs, x, 10);
    proof {
        assert(cs@ =~= digits(x as nat, 10));
    }
    let mut i: usize = 0;
    while i < cs.len()
        invariant
            i <= cs@.len(),
            cs@ == digits(x as nat, 10),
            out@ == old(out)@ + ascii_of(cs@.take(i as int)),
        decreases cs@.len() - i,
    {
        out.push(cs[i] as u8);
        proof {
            assert(ascii_of(cs@.take(i + 1)) =~= ascii_of(cs@.take(i as int)).push(cs@[i as int] as u8));
        }
        i = i + 1;
    }
    proof {
        assert(cs@.take(i as int) =~= cs@);
    }
}

/// Appends the decimal form of `x`, with `-` before a negative number.
fn push_signed(out: &mut Vec<u8>, x: i128)
    ensures
        final(out)@ == old(out)@ + signed_decimal(x as int),
{
    if x < 0 {
        out.push(0x2d);
        let magnitude = (-(x + 1)) as u128 + 1;
        let ghost mid = out@;
        push_decimal(out, magnitude);
        proof {
            assert(final(out)@ =~= old(out)@ + signed_decimal(x as int));
        }
    } else {
        push_decimal(out, x as u128);
    }
}

/// Appends `s` between double quotes, as UTF-8.
fn push_quoted_str(out: &mut Vec<u8>, s: &str)
    ensures
        final(out)@ == old(out)@ + quoted(encode_utf8(s@)),
{
    out.push(0x22);
    push_bytes(out, s.as_bytes());
    out.push(0x22);
    proof {
        assert(final(out)@ =~= old(out)@ + quoted(encode_utf8(s@)));
    }
}

/// The index of the first variant with discriminant `d`.
fn find_variant(vs: &Vec<VariantType>, d: i32) -> (r: Option<usize>)
    ensures
        match (r, first_variant(vs@, d)) {
            (Some(i), Some(j)) => i == j,
            (None, None) => true,
            _ => false,
        },
{
    proof {
        lemma_first_variant(vs@, d);
    }
    let mut i: usize = 0;
    while i < vs.len()
        invariant
            i <= vs@.len(),
            forall|j: int| 0 <= j < i ==> vs@[j].discriminant != d,
            match first_variant(vs@, d) {
                Some(k) => 0 <= k < vs@.len() && vs@[k].discriminant == d && forall|j: int|
                    0 <= j < k ==> vs@[j].discriminant != d,
                None => forall|j: int| 0 <= j < vs@.len() ==> vs@[j].discriminant != d,
            },
        decreases vs@.len() - i,
    {
        if vs[i].discriminant == d {
            return Some(i);
        }
        i = i + 1;
    }
    None
}

/// Appends the JSON text of `v`, of type `t`.
fn write_value(v: &DynamicValue, t: &ValueType, out: &mut Vec<u8>) -> (r: Result<(), EncodeError>)
    requires
        json_encodable(v@),
    ensures
        match (r, json_of(v@, *t)) {
            (Ok(()), Ok(x)) => final(out)@ == old(out)@ + x,
            (Err(e), Err(se)) => e == se,
            _ => false,
        },
    decreases v, 1nat,
{
    match (v, t) {
        (DynamicValue::Struct(xs), ValueType::Struct(fs)) => {
            let mut body: Vec<u8> = Vec::new();
            match write_fields(xs, fs, &mut body) {
                Ok(_) => {
                    out.push(0x7b);
                    push_bytes(out, body.as_slice());
                    out.push(0x7d);
                    proof {
                        assert(final(out)@ =~= old(out)@ + (seq![0x7bu8] + body@ + seq![0x7du8]));
                    }
                    Ok(())
                },
                Err(e) => Err(e),
            }
        },
        (DynamicValue::List(xs), ValueType::List(et)) => {
            let mut body: Vec<u8> = Vec::new();
            match write_elems(xs, et, &mut body) {
                Ok(()) => {
                    out.push(0x5b);
                    push_bytes(out, body.as_slice());
                    out.push(0x5d);
                    proof {
                        assert(final(out)@ =~= old(out)@ + (seq![0x5bu8] + body@ + seq![0x5du8]));
                    }
                    Ok(())
                },
                Err(e) => Err(e),
            }
        },
        (DynamicValue::Enum(_, _), ValueType::Enum(vs)) => write_enum(v, vs, out),
        (DynamicValue::Nullable(p), ValueType::Nullable(it)) => match p {
            None => {
                out.push(0x6e);
                out.push(0x75);
                out.push(0x6c);
                out.push(0x6c);
                proof {
                    assert(final(out)@ =~= old(out)@ + json_null());
                }
                Ok(())
            },
            Some(b) => write_value(b, it, out),
        },
        _ => write_scalar(v, t, out),
    }
}

/// Appends the JSON text of an enum value `v` with variants `vs`.
fn write_enum(v: &DynamicValue, vs: &Vec<VariantType>, out: &mut Vec<u8>) -> (r: Result<(), EncodeError>)
    requires
        json_encodable(v@),
        v is Enum,
    ensures
        match (r, json_of(v@, ValueType::Enum(*vs))) {
            (Ok(()), Ok(x)) => final(out)@ == old(out)@ + x,
            (Err(e), Err(se)) => e == se,
            _ => false,
        },
    decreases v, 0nat,
{
    match v {
        DynamicValue::Enum(d, p) => {
                proof {
                    lemma_first_variant(vs@, *d);
                }
                match find_variant(vs, *d) {
                    None => Err(EncodeError::UnknownError),
                    Some(i) => {
                        let variant = &vs[i];
                        match p {
                            None => {
                                push_quoted_str(out, variant.name.as_str());
                                Ok(())
                            },
                            Some(b) => match &variant.payload {
                                None => Err(EncodeError::UnknownError),
                                Some(pt) => {
                                    let mut inner: Vec<u8> = Vec::new();
                                    match write_value(b, pt, &mut inner) {
                                        Ok(()) => {
                                            let ghost start = out@;
                                            out.push(0x7b);
                                            out.push(0x22);
                                            out.push(0x74);
                                            out.push(0x79);
                                            out.push(0x70);
                                            out.push(0x65);
                                            out.push(0x22);
                                            out.push(0x3a);
                                            out.push(0x22);
                                            push_bytes(out, variant.name.as_str().as_bytes());
                                            out.push(0x22);
                                            out.push(0x2c);
                                            out.push(0x22);
                                            out.push(0x76);
                                            out.push(0x61);
                                            out.push(0x6c);
                                            out.push(0x75);
                                            out.push(0x65);
                                            out.push(0x22);
                                            out.push(0x3a);
                                            push_bytes(out, inner.as_slice());
                                            out.push(0x7d);
                                            proof {
                                                assert(final(out)@ =~= old(out)@ + (enum_open() + encode_utf8(vs@[i as int].name@)
                                                    + enum_mid() + inner@ + seq![0x7du8]));
                                            }
                                            Ok(())
                                        },
                                        Err(e) => Err(e),
                                    }
                                },
                            },
                        }
                    },
                }
        },
        _ => Err(EncodeError::UnknownError),
    }
}

/// Appends the JSON text of `v`, of type `t`, where they are not a struct, list, enum or
/// nullable of the same kind.
fn write_scalar(v: &DynamicValue, t: &ValueType, out: &mut Vec<u8>) -> (r: Result<(), EncodeError>)
    requires
        !(v is Struct && t is Struct),
        !(v is List && t is List),
        !(v is Enum && t is Enum),
        !(v is Nullable && t is Nullable),
    ensures
        match (r, json_of(v@, *t)) {
            (Ok(()), Ok(x)) => final(out)@ == old(out)@ + x,
            (Err(e), Err(se)) => e == se,
            _ => false,
        },
{
    match (v, t) {
        (DynamicValue::U8(x), ValueType::U8) => {
            push_decimal(out, *x as u128);
            Ok(())
        },
        (DynamicValue::U16(x), ValueType::U16) => {
            push_decimal(out, *x as u128);
            Ok(())
        },
        (DynamicValue::U32(x), ValueType::U32) => {
            push_decimal(out, *x as u128);
            Ok(())
        },
        (DynamicValue::U64(x), ValueType::U64) => {
            out.push(0x22);
            push_decimal(out, *x as u128);
            out.push(0x22);
            proof {
                assert(final(out)@ =~= old(out)@ + quoted(decimal(*x as nat)));
            }
            Ok(())
        },
        (DynamicValue::U128(x), ValueType::U128) => {
            out.push(0x22);
            push_decimal(out, *x);
            out.push(0x22);
            proof {
                assert(final(out)@ =~= old(out)@ + quoted(decimal(*x as nat)));
            }
            Ok(())
        },
        (DynamicValue::I8(x), ValueType::I8) => {
            push_signed(out, *x as i128);
            Ok(())
        },
        (DynamicValue::I16(x), ValueType::I16) => {
            push_signed(out, *x as i128);
            Ok(())
        },
        (DynamicValue::I32(x), ValueType::I32) => {
            push_signed(out, *x as i128);
            Ok(())
        },
        (DynamicValue::I64(x), ValueType::I64) => {
            out.push(0x22);
            push_signed(out, *x as i128);
            out.push(0x22);
            proof {
                assert(final(out)@ =~= old(out)@ + quoted(signed_decimal(*x as int)));
            }
            Ok(())
        },
        (DynamicValue::I128(x), ValueType::I128) => {
            out.push(0x22);
            push_signed(out, *x);
            out.push(0x22);
            proof {
                assert(final(out)@ =~= old(out)@ + quoted(signed_decimal(*x as int)));
            }
            Ok(())
        },
        (DynamicValue::Bool(b), ValueType::Bool) => {
            if *b {
                out.push(0x74);
                out.push(0x72);
                out.push(0x75);
                out.push(0x65);
            } else {
                out.push(0x66);
                out.push(0x61);
                out.push(0x6c);
                out.push(0x73);
                out.push(0x65);
            }
            proof {
                assert(final(out)@ =~= old(out)@ + (if *b { json_true() } else { json_false() }));
            }
            Ok(())
        },
        (DynamicValue::Str(s), ValueType::Str) => {
            out.push(0x22);
            escape_json_inner(s.as_str(), out);
            out.push(0x22);
            proof {
                assert(final(out)@ =~= old(out)@ + quoted(encode_utf8(escape_chars(s@))));
            }
            Ok(())
        },
        (DynamicValue::Bytes(b), ValueType::Bytes) => {
            let text = base64_encode(b.as_slice());
            push_quoted_str(out, text.as_str());
            Ok(())
        },
        (DynamicValue::AccountID(a), ValueType::AccountID) => {
            out.push(0x22);
            push_decimal(out, *a);
            out.push(0x22);
            proof {
                assert(final(out)@ =~= old(out)@ + quoted(decimal(*a as nat)));
            }
            Ok(())
        },
        _ => Err(EncodeError::UnknownError),
    }
}

/// Whether a struct field holding `v` is left out as holding its default.
fn is_field_default(v: &DynamicValue) -> (r: bool)
    ensures
        r == field_default(v@),
{
    match v {
        DynamicValue::U8(x) => *x == 0,
        DynamicValue::U16(x) => *x == 0,
        DynamicValue::U32(x) => *x == 0,
        DynamicValue::U64(x) => *x == 0,
        DynamicValue::U128(x) => *x == 0,
        DynamicValue::I8(x) => *x == 0,
        DynamicValue::I16(x) => *x == 0,
        DynamicValue::I32(x) => *x == 0,
        DynamicValue::I64(x) => *x == 0,
        DynamicValue::I128(x) => *x == 0,
        DynamicValue::Bool(b) => !*b,
        DynamicValue::Str(s) => s.as_str().is_empty(),
        DynamicValue::Bytes(b) => b.len() == 0,
        DynamicValue::AccountID(a) => *a == 0,
        DynamicValue::List(xs) => {
            proof {
                lemma_values_model_index(xs@);
            }
            xs.len() == 0
        },
        DynamicValue::Enum(d, p) => *d == 0 && p.is_none(),
        DynamicValue::Nullable(p) => p.is_none(),
        _ => false,
    }
}

/// Appends the JSON text of a struct field holding `v` of type `t`, unless it is left out;
/// tells whether it was written.
fn write_field(v: &DynamicValue, t: &ValueType, out: &mut Vec<u8>) -> (r: Result<bool, EncodeError>)
    requires
        json_encodable(v@),
    ensures
        match (r, field_json(v@, *t)) {
            (Ok(false), Ok(None)) => final(out)@ == old(out)@,
            (Ok(true), Ok(Some(x))) => final(out)@ == old(out)@ + x,
            (Err(e), Err(se)) => e == se,
            _ => false,
        },
    decreases v, 2nat,
{
    match (v, t) {
        (DynamicValue::Struct(xs), ValueType::Struct(fs)) => {
            let mut body: Vec<u8> = Vec::new();
            match write_fields(xs, fs, &mut body) {
                Ok(n) => {
                    if n == 0 {
                        Ok(false)
                    } else {
                        out.push(0x7b);
                        push_bytes(out, body.as_slice());
                        out.push(0x7d);
                        proof {
                            assert(final(out)@ =~= old(out)@ + (seq![0x7bu8] + body@ + seq![0x7du8]));
                        }
                        Ok(true)
                    }
                },
                Err(e) => Err(e),
            }
        },
        _ => {
            if is_field_default(v) {
                Ok(false)
            } else {
                match write_value(v, t, out) {
                    Ok(()) => Ok(true),
                    Err(e) => Err(e),
                }
            }
        },
    }
}

/// The written fields of a struct with field types `fs` holding `xs`, separated by commas;
/// gives back how many were written.
fn write_fields(xs: &Vec<DynamicValue>, fs: &Vec<FieldType>, out: &mut Vec<u8>) -> (r: Result<usize, EncodeError>)
    requires
        all_encodable(crate::value::values_model(xs@)),
    ensures
        match (r, fields_json(crate::value::values_model(xs@), fs@)) {
            (Ok(n), Ok((body, sn))) => final(out)@ == old(out)@ + body && n == sn,
            (Err(e), Err(se)) => e == se,
            _ => false,
        },
    decreases xs, 3nat,
{
    let ghost ms = crate::value::values_model(xs@);
    proof {
        lemma_values_model_index(xs@);
    }
    if xs.len() != fs.len() {
        return Err(EncodeError::UnknownError);
    }
    let mut n: usize = 0;
    let mut i: usize = 0;
    proof {
        assert(ms.take(0) =~= Seq::<ValueModel>::empty());
        assert(fs@.take(0) =~= Seq::<FieldType>::empty());
        assert(old(out)@ + Seq::<u8>::empty() =~= old(out)@);
    }
    while i < xs.len()
        invariant
            xs@.len() == fs@.len(),
            ms == crate::value::values_model(xs@),
            ms.len() == xs@.len(),
            all_encodable(ms),
            i <= xs@.len(),
            n <= i,
            fields_json(ms.take(i as int), fs@.take(i as int)) matches Ok((body, sn)) && out@ == old(out)@ + body
                && n == sn,
        decreases xs@.len() - i,
    {
        proof {
            lemma_values_model_index(xs@);
            lemma_all_encodable_index(ms, i as int);
            assert(ms.take(i + 1).drop_last() =~= ms.take(i as int));
            assert(fs@.take(i + 1).drop_last() =~= fs@.take(i as int));
            assert(ms.take(i + 1).last() == xs@[i as int]@);
            assert(fs@.take(i + 1).last() == fs@[i as int]);
        }
        let mut item: Vec<u8> = Vec::new();
        match write_field(&xs[i], &fs[i].ty, &mut item) {
            Err(e) => {
                proof {
                    lemma_fields_json_err(ms, fs@, (i + 1) as int);
                    assert(ms.take(xs@.len() as int) =~= ms);
                    assert(fs@.take(xs@.len() as int) =~= fs@);
                }
                return Err(e);
            },
            Ok(false) => {},
            Ok(true) => {
                let ghost before = out@;
                if n > 0 {
                    out.push(0x2c);
                }
                push_quoted_str(out, fs[i].name.as_str());
                out.push(0x3a);
                push_bytes(out, item.as_slice());
                proof {
                    assert(out@ =~= before + (if n > 0 { seq![0x2cu8] } else { Seq::<u8>::empty() }) + field_entry(
                        fs@[i as int],
                        item@,
                    ));
                }
                n = n + 1;
            },
        }
        i = i + 1;
    }
    proof {
        assert(ms.take(i as int) =~= ms);
        assert(fs@.take(i as int) =~= fs@);
    }
    Ok(n)
}

/// The JSON texts of the elements `xs`, of element type `t`, separated by commas.
fn write_elems(xs: &Vec<DynamicValue>, t: &ValueType, out: &mut Vec<u8>) -> (r: Result<(), EncodeError>)
    requires
        all_encodable(crate::value::values_model(xs@)),
    ensures
        match (r, elems_json(crate::value::values_model(xs@), *t)) {
            (Ok(()), Ok(body)) => final(out)@ == old(out)@ + body,
            (Err(e), Err(se)) => e == se,
            _ => false,
        },
    decreases xs, 3nat,
{
    let ghost ms = crate::value::values_model(xs@);
    proof {
        lemma_values_model_index(xs@);
        assert(ms.take(0) =~= Seq::<ValueModel>::empty());
        assert(old(out)@ + Seq::<u8>::empty() =~= old(out)@);
    }
    let mut i: usize = 0;
    while i < xs.len()
        invariant
            ms == crate::value::values_model(xs@),
            ms.len() == xs@.len(),
            all_encodable(ms),
            i <= xs@.len(),
            elems_json(ms.take(i as int), *t) matches Ok(body) && out@ == old(out)@ + body,
        decreases xs@.len() - i,
    {
        proof {
            lemma_values_model_index(xs@);
            lemma_all_encodable_index(ms, i as int);
            assert(ms.take(i + 1).drop_last() =~= ms.take(i as int));
            assert(ms.take(i + 1).last() == xs@[i as int]@);
        }
        let ghost before = out@;
        if i > 0 {
            out.push(0x2c);
        }
        match write_value(&xs[i], t, out) {
            Err(e) => {
                proof {
                    lemma_elems_json_err(ms, *t, (i + 1) as int);
                    assert(ms.take(xs@.len() as int) =~= ms);
                }
                return Err(e);
            },
            Ok(()) => {
                proof {
                    let x = json_of(xs@[i as int]@, *t)->Ok_0;
                    assert(out@ =~= before + (if i > 0 { seq![0x2cu8] } else { Seq::<u8>::empty() }) + x);
                }
            },
        }
        i = i + 1;
    }
    proof {
        assert(ms.take(i as int) =~= ms);
    }
    Ok(())
}

/// An error in the fields up to `k` is the error of all the fields.
proof fn lemma_fields_json_err(xs: Seq<ValueModel>, fs: Seq<FieldType>, k: int)
    requires
        xs.len() == fs.len(),
        0 <= k <= xs.len(),
        fields_json(xs.take(k), fs.take(k)) is Err,
    ensures
        fields_json(xs.take(xs.len() as int), fs.take(xs.len() as int)) == fields_json(xs.take(k), fs.take(k)),
    decreases xs.len() - k,
{
    if k < xs.len() {
        assert(xs.take(k + 1).drop_last() =~= xs.take(k));
        assert(fs.take(k + 1).drop_last() =~= fs.take(k));
        lemma_fields_json_err(xs, fs, k + 1);
    }
}

/// An error in the elements up to `k` is the error of all the elements.
proof fn lemma_elems_json_err(xs: Seq<ValueModel>, t: ValueType, k: int)
    requires
        0 <= k <= xs.len(),
        elems_json(xs.take(k), t) is Err,
    ensures
        elems_json(xs.take(xs.len() as int), t) == elems_json(xs.take(k), t),
    decreases xs.len() - k,
{
    if k < xs.len() {
        assert(xs.take(k + 1).drop_last() =~= xs.take(k));
        lemma_elems_json_err(xs, t, k + 1);
    }
}

proof fn lemma_all_encodable_index(xs: Seq<ValueModel>, i: int)
    requires
        all_encodable(xs),
        0 <= i < xs.len(),
    ensures
        json_encodable(xs[i]),
    decreases xs.len(),
{
    if i < xs.len() - 1 {
        assert(xs.drop_last()[i] == xs[i]);
        lemma_all_encodable_index(xs.drop_last(), i);
    }
}

/// Appends the JSON text of `value`, of type `t`.
pub fn encode_value(value: &DynamicValue, t: &ValueType, writer: &mut Vec<u8>) -> (r: Result<(), EncodeError>)
    requires
        json_encodable(value@),
    ensures
        match (r, json_of(value@, *t)) {
            (Ok(()), Ok(x)) => final(writer)@ == old(writer)@ + x,
            (Err(e), Err(se)) => e == se,
            _ => false,
        },
{
    write_value(value, t, writer)
}

/// A codec for the JSON format, with the codec it would render account IDs by.
pub struct JSONCodec<'a, C: AccountIDStringCodec> {
    account_id_codec: &'a C,
}

impl<'a, C: AccountIDStringCodec> JSONCodec<'a, C> {
    /// A JSON codec with the given account ID codec.
    pub fn new(account_id_codec: &'a C) -> (r: Self)
        ensures
            r.account_id_codec() == account_id_codec,
    {
        JSONCodec { account_id_codec }
    }

    /// The account ID codec.
    pub closed spec fn account_id_codec(&self) -> &'a C {
        self.account_id_codec
    }

    /// Appends the JSON text of `value`, of type `t`.
    pub fn encode_value(&self, value: &DynamicValue, t: &ValueType, writer: &mut Vec<u8>) -> (r: Result<(), EncodeError>)
        requires
            json_encodable(value@),
        ensures
            match (r, json_of(value@, *t)) {
                (Ok(()), Ok(x)) => final(writer)@ == old(writer)@ + x,
                (Err(e), Err(se)) => e == se,
                _ => false,
            },
    {
        encode_value(value, t, writer)
    }
}

} // verus!
