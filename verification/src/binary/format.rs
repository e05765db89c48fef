//! The native binary format as functions on byte sequences.
use crate::errors::DecodeError;
use crate::value::{first_variant, lemma_first_variant, FieldType, ValueModel, ValueType};
use vstd::bytes::*;
use vstd::prelude::*;
use vstd::utf8::*;

verus! {

/// Four little-endian bytes of `n`, reduced modulo 2^32.
pub open spec fn le32(n: int) -> Seq<u8> {
    spec_u32_to_le_bytes(n as u32)
}

/// The outer-form encoding of a value. A packed message has no binary form and is written as
/// nothing.
pub open spec fn enc_out(v: ValueModel) -> Seq<u8>
    decreases v, 0nat,
{
    match v {
        ValueModel::U8(x) => seq![x],
        ValueModel::U16(x) => spec_u16_to_le_bytes(x),
        ValueModel::U32(x) => spec_u32_to_le_bytes(x),
        ValueModel::U64(x) => spec_u64_to_le_bytes(x),
        ValueModel::U128(x) => spec_u128_to_le_bytes(x),
        ValueModel::I8(x) => seq![x as u8],
        ValueModel::I16(x) => spec_u16_to_le_bytes(x as u16),
        ValueModel::I32(x) => spec_u32_to_le_bytes(x as u32),
        ValueModel::I64(x) => spec_u64_to_le_bytes(x as u64),
        ValueModel::I128(x) => spec_u128_to_le_bytes(x as u128),
        ValueModel::Bool(b) => seq![if b { 1u8 } else { 0u8 }],
        ValueModel::Str(s) => encode_utf8(s),
        ValueModel::Bytes(b) => b,
        ValueModel::Time(n) => spec_u128_to_le_bytes(n as u128),
        ValueModel::Duration(n) => spec_u128_to_le_bytes(n as u128),
        ValueModel::AccountID(a) => spec_u128_to_le_bytes(a),
        ValueModel::Struct(xs) => enc_in_seq(xs),
        ValueModel::List(xs) => le32(xs.len() as int) + enc_in_seq(xs),
        ValueModel::Enum(d, p) => spec_u32_to_le_bytes(d as u32) + match p {
            Some(b) => enc_out(*b),
            None => Seq::empty(),
        },
        ValueModel::Nullable(p) => match p {
            Some(b) => enc_out(*b),
            None => Seq::empty(),
        },
        ValueModel::AnyMessage(_) => Seq::empty(),
    }
}

/// The inner-form encoding of a value.
pub open spec fn enc_in(v: ValueModel) -> Seq<u8>
    decreases v, 1nat,
{
    match v {
        ValueModel::Str(s) => le32(encode_utf8(s).len() as int) + encode_utf8(s),
        ValueModel::Bytes(b) => le32(b.len() as int) + b,
        ValueModel::Struct(_) => le32(enc_out(v).len() as int) + enc_out(v),
        ValueModel::List(_) => le32(enc_out(v).len() as int) + enc_out(v),
        ValueModel::Nullable(p) => match p {
            Some(b) => seq![1u8] + enc_in(*b),
            None => seq![0u8],
        },
        _ => enc_out(v),
    }
}

/// The inner-form encodings of a sequence of values, one after another.
pub open spec fn enc_in_seq(xs: Seq<ValueModel>) -> Seq<u8>
    decreases xs, 2nat,
{
    if xs.len() == 0 {
        Seq::empty()
    } else {
        enc_in(xs[0]) + enc_in_seq(xs.drop_first())
    }
}

/// Reads `k` bytes: the bytes and what follows them.
pub open spec fn take(s: Seq<u8>, k: int) -> Result<(Seq<u8>, Seq<u8>), DecodeError> {
    if s.len() < k {
        Err(DecodeError::OutOfData)
    } else {
        Ok((s.subrange(0, k), s.subrange(k, s.len() as int)))
    }
}

/// Reads a little-endian `u32`.
pub open spec fn take_u32(s: Seq<u8>) -> Result<(u32, Seq<u8>), DecodeError> {
    match take(s, 4) {
        Ok((b, rest)) => Ok((spec_u32_from_le_bytes(b), rest)),
        Err(e) => Err(e),
    }
}

/// Reads a `u32` length prefix and then that many bytes.
pub open spec fn take_sized(s: Seq<u8>) -> Result<(Seq<u8>, Seq<u8>), DecodeError> {
    match take_u32(s) {
        Ok((n, rest)) => take(rest, n as int),
        Err(e) => Err(e),
    }
}

/// Decodes a value of scalar type `t` (anything but a struct, list, enum or nullable).
pub open spec fn dec_scalar(t: ValueType, s: Seq<u8>) -> Result<(ValueModel, Seq<u8>), DecodeError> {
    match t {
        ValueType::U8 => match take(s, 1) {
            Ok((b, r)) => Ok((ValueModel::U8(b[0]), r)),
            Err(e) => Err(e),
        },
        ValueType::U16 => match take(s, 2) {
            Ok((b, r)) => Ok((ValueModel::U16(spec_u16_from_le_bytes(b)), r)),
            Err(e) => Err(e),
        },
        ValueType::U32 => match take(s, 4) {
            Ok((b, r)) => Ok((ValueModel::U32(spec_u32_from_le_bytes(b)), r)),
            Err(e) => Err(e),
        },
        ValueType::U64 => match take(s, 8) {
            Ok((b, r)) => Ok((ValueModel::U64(spec_u64_from_le_bytes(b)), r)),
            Err(e) => Err(e),
        },
        ValueType::U128 => match take(s, 16) {
            Ok((b, r)) => Ok((ValueModel::U128(spec_u128_from_le_bytes(b)), r)),
            Err(e) => Err(e),
        },
        ValueType::I8 => match take(s, 1) {
            Ok((b, r)) => Ok((ValueModel::I8(b[0] as i8), r)),
            Err(e) => Err(e),
        },
        ValueType::I16 => match take(s, 2) {
            Ok((b, r)) => Ok((ValueModel::I16(spec_u16_from_le_bytes(b) as i16), r)),
            Err(e) => Err(e),
        },
        ValueType::I32 => match take(s, 4) {
            Ok((b, r)) => Ok((ValueModel::I32(spec_u32_from_le_bytes(b) as i32), r)),
            Err(e) => Err(e),
        },
        ValueType::I64 => match take(s, 8) {
            Ok((b, r)) => Ok((ValueModel::I64(spec_u64_from_le_bytes(b) as i64), r)),
            Err(e) => Err(e),
        },
        ValueType::I128 => match take(s, 16) {
            Ok((b, r)) => Ok((ValueModel::I128(spec_u128_from_le_bytes(b) as i128), r)),
            Err(e) => Err(e),
        },
        ValueType::Bool => match take(s, 1) {
            Ok((b, r)) => Ok((ValueModel::Bool(b[0] != 0), r)),
            Err(e) => Err(e),
        },
        ValueType::Time => match take(s, 16) {
            Ok((b, r)) => Ok((ValueModel::Time(spec_u128_from_le_bytes(b) as i128), r)),
            Err(e) => Err(e),
        },
        ValueType::Duration => match take(s, 16) {
            Ok((b, r)) => Ok((ValueModel::Duration(spec_u128_from_le_bytes(b) as i128), r)),
            Err(e) => Err(e),
        },
        ValueType::AccountID => match take(s, 16) {
            Ok((b, r)) => Ok((ValueModel::AccountID(spec_u128_from_le_bytes(b)), r)),
            Err(e) => Err(e),
        },
        ValueType::Str => if valid_utf8(s) {
            Ok((ValueModel::Str(decode_utf8(s)), Seq::empty()))
        } else {
            Err(DecodeError::InvalidData)
        },
        ValueType::Bytes => Ok((ValueModel::Bytes(s), Seq::empty())),
        _ => Err(DecodeError::InvalidData),
    }
}

/// Whether `t` is a struct, list, enum or nullable type.
pub open spec fn is_compound(t: ValueType) -> bool {
    t is Struct || t is List || t is Enum || t is Nullable
}

/// Outer-form decoding of a value of type `t` from `s`: the value and what the decoder has
/// left to read afterwards.
pub open spec fn dec_out(t: ValueType, s: Seq<u8>) -> Result<(ValueModel, Seq<u8>), DecodeError>
    decreases t, 0nat, 0nat,
{
    match t {
        ValueType::Struct(fs) => match dec_fields(fs@, s) {
            Ok((xs, _)) => Ok((ValueModel::Struct(xs), s)),
            Err(e) => Err(e),
        },
        ValueType::List(et) => match take_u32(s) {
            Ok((n, rest)) => match dec_elems(*et, n as nat, rest) {
                Ok((xs, _)) => Ok((ValueModel::List(xs), rest)),
                Err(e) => Err(e),
            },
            Err(e) => Err(e),
        },
        ValueType::Enum(vs) => match take_u32(s) {
            Ok((n, rest)) => {
                let d = n as i32;
                match first_variant(vs@, d) {
                    None => Err(DecodeError::UnknownField),
                    Some(i) => match vs@[i].payload {
                        None => Ok((ValueModel::Enum(d, None), rest)),
                        Some(pt) => {
                            proof {
                                lemma_first_variant(vs@, d);
                            }
                            match dec_out(pt, rest) {
                                Ok((p, r)) => Ok((ValueModel::Enum(d, Some(Box::new(p))), r)),
                                Err(e) => Err(e),
                            }
                        },
                    },
                }
            },
            Err(e) => Err(e),
        },
        ValueType::Nullable(it) => if s.len() == 0 {
            Ok((ValueModel::Nullable(None), s))
        } else {
            match dec_out(*it, s) {
                Ok((x, _)) => Ok((ValueModel::Nullable(Some(Box::new(x))), s)),
                Err(e) => Err(e),
            }
        },
        _ => dec_scalar(t, s),
    }
}

/// Inner-form decoding of a value of type `t` from `s`.
pub open spec fn dec_in(t: ValueType, s: Seq<u8>) -> Result<(ValueModel, Seq<u8>), DecodeError>
    decreases t, 1nat, 0nat,
{
    match t {
        ValueType::Str => match take_sized(s) {
            Ok((b, r)) => if valid_utf8(b) {
                Ok((ValueModel::Str(decode_utf8(b)), r))
            } else {
                Err(DecodeError::InvalidData)
            },
            Err(e) => Err(e),
        },
        ValueType::Bytes => match take_sized(s) {
            Ok((b, r)) => Ok((ValueModel::Bytes(b), r)),
            Err(e) => Err(e),
        },
        ValueType::Struct(_) => match take_sized(s) {
            Ok((b, r)) => match dec_out(t, b) {
                Ok((x, _)) => Ok((x, r)),
                Err(e) => Err(e),
            },
            Err(e) => Err(e),
        },
        ValueType::List(_) => match take_sized(s) {
            Ok((b, r)) => match dec_out(t, b) {
                Ok((x, _)) => Ok((x, r)),
                Err(e) => Err(e),
            },
            Err(e) => Err(e),
        },
        ValueType::Nullable(it) => match take(s, 1) {
            Ok((b, r)) => if b[0] != 0 {
                match dec_in(*it, r) {
                    Ok((x, r2)) => Ok((ValueModel::Nullable(Some(Box::new(x))), r2)),
                    Err(e) => Err(e),
                }
            } else {
                Ok((ValueModel::Nullable(None), r))
            },
            Err(e) => Err(e),
        },
        _ => dec_out(t, s),
    }
}

/// Inner-form decoding of one value per field, in order.
pub open spec fn dec_fields(fs: Seq<FieldType>, s: Seq<u8>) -> Result<(Seq<ValueModel>, Seq<u8>), DecodeError>
    decreases fs, 2nat, 0nat,
{
    if fs.len() == 0 {
        Ok((Seq::empty(), s))
    } else {
        match dec_in(fs[0].ty, s) {
            Ok((x, r)) => match dec_fields(fs.drop_first(), r) {
                Ok((xs, r2)) => Ok((seq![x] + xs, r2)),
                Err(e) => Err(e),
            },
            Err(e) => Err(e),
        }
    }
}

/// Inner-form decoding of `n` values of type `t`, one after another.
pub open spec fn dec_elems(t: ValueType, n: nat, s: Seq<u8>) -> Result<(Seq<ValueModel>, Seq<u8>), DecodeError>
    decreases t, 3nat, n,
{
    if n == 0 {
        Ok((Seq::empty(), s))
    } else {
        match dec_in(t, s) {
            Ok((x, r)) => match dec_elems(t, (n - 1) as nat, r) {
                Ok((xs, r2)) => Ok((seq![x] + xs, r2)),
                Err(e) => Err(e),
            },
            Err(e) => Err(e),
        }
    }
}

} // verus!
