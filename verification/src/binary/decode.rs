//! Decoding of the native binary format.
use crate::binary::format::{dec_elems, dec_fields, dec_in, dec_out, dec_scalar, is_compound, take, take_sized, take_u32};
use crate::errors::DecodeError;
use crate::text::string_from_utf8;
use crate::value::{value_model, first_variant, lemma_first_variant, values_model, FieldType, DynamicValue, ValueModel, ValueType, VariantType};
use vstd::bytes::*;
use vstd::prelude::*;
use vstd::slice::{slice_subrange, slice_to_vec};

verus! {

/// Whether an executable decoding result `r` over the window `buf[..end]` agrees with the
/// decoding `sr` of that window.
pub open spec fn agrees(r: Result<(DynamicValue, usize), DecodeError>, sr: Result<(ValueModel, Seq<u8>), DecodeError>, buf: Seq<u8>, end: int) -> bool {
    match (r, sr) {
        (Ok((v, p)), Ok((sv, rest))) => v@ == sv && p <= end && rest == buf.subrange(p as int, end),
        (Err(e), Err(se)) => e == se,
        _ => false,
    }
}

proof fn lemma_window(buf: Seq<u8>, start: int, end: int, k: int)
    requires
        0 <= start <= end <= buf.len(),
        0 <= k <= end - start,
    ensures
        buf.subrange(start, end).subrange(0, k) == buf.subrange(start, start + k),
        buf.subrange(start, end).subrange(k, end - start) == buf.subrange(start + k, end),
{
    assert(buf.subrange(start, end).subrange(0, k) =~= buf.subrange(start, start + k));
    assert(buf.subrange(start, end).subrange(k, end - start) =~= buf.subrange(start + k, end));
}

/// Reads a little-endian `u32` at `pos`.
fn read_u32(buf: &[u8], pos: usize, end: usize) -> (r: Result<u32, DecodeError>)
    requires
        pos <= end <= buf@.len(),
    ensures
        match (r, take_u32(buf@.subrange(pos as int, end as int))) {
            (Ok(n), Ok((sn, rest))) => n == sn && pos + 4 <= end && rest == buf@.subrange(pos + 4, end as int),
            (Err(e), Err(se)) => e == se,
            _ => false,
        },
{
    if end - pos < 4 {
        return Err(DecodeError::OutOfData);
    }
    proof {
        lemma_window(buf@, pos as int, end as int, 4);
    }
    let b = slice_subrange(buf, pos, pos + 4);
    Ok(u32_from_le_bytes(b))
}

/// Decodes a value of a scalar type at `pos`.
fn decode_scalar(t: &ValueType, buf: &[u8], pos: usize, end: usize) -> (r: Result<(DynamicValue, usize), DecodeError>)
    requires
        pos <= end <= buf@.len(),
        !is_compound(*t),
    ensures
        agrees(r, dec_scalar(*t, buf@.subrange(pos as int, end as int)), buf@, end as int),
{
    let ghost s = buf@.subrange(pos as int, end as int);
    let avail = end - pos;
    let k: usize = match t {
        ValueType::U8 | ValueType::I8 | ValueType::Bool => 1,
        ValueType::U16 | ValueType::I16 => 2,
        ValueType::U32 | ValueType::I32 => 4,
        ValueType::U64 | ValueType::I64 => 8,
        ValueType::Str | ValueType::Bytes => avail,
        _ => 16,
    };
    if avail < k {
        return Err(DecodeError::OutOfData);
    }
    proof {
        lemma_window(buf@, pos as int, end as int, k as int);
    }
    let b = slice_subrange(buf, pos, pos + k);
    let next = pos + k;
    match t {
        ValueType::U8 => Ok((DynamicValue::U8(b[0]), next)),
        ValueType::I8 => Ok((DynamicValue::I8(b[0] as i8), next)),
        ValueType::Bool => Ok((DynamicValue::Bool(b[0] != 0), next)),
        ValueType::U16 => Ok((DynamicValue::U16(u16_from_le_bytes(b)), next)),
        ValueType::I16 => Ok((DynamicValue::I16(u16_from_le_bytes(b) as i16), next)),
        ValueType::U32 => Ok((DynamicValue::U32(u32_from_le_bytes(b)), next)),
        ValueType::I32 => Ok((DynamicValue::I32(u32_from_le_bytes(b) as i32), next)),
        ValueType::U64 => Ok((DynamicValue::U64(u64_from_le_bytes(b)), next)),
        ValueType::I64 => Ok((DynamicValue::I64(u64_from_le_bytes(b) as i64), next)),
        ValueType::U128 => Ok((DynamicValue::U128(u128_from_le_bytes(b)), next)),
        ValueType::I128 => Ok((DynamicValue::I128(u128_from_le_bytes(b) as i128), next)),
        ValueType::Time => Ok((DynamicValue::Time(u128_from_le_bytes(b) as i128), next)),
        ValueType::Duration => Ok((DynamicValue::Duration(u128_from_le_bytes(b) as i128), next)),
        ValueType::AccountID => Ok((DynamicValue::AccountID(u128_from_le_bytes(b)), next)),
        ValueType::Bytes => {
            let v = slice_to_vec(b);
            proof {
                assert(buf@.subrange(end as int, end as int) =~= Seq::<u8>::empty());
            }
            Ok((DynamicValue::Bytes(v), next))
        },
        _ => {
            let v = slice_to_vec(b);
            proof {
                assert(buf@.subrange(end as int, end as int) =~= Seq::<u8>::empty());
            }
            match string_from_utf8(v) {
                Some(st) => Ok((DynamicValue::Str(st), next)),
                None => Err(DecodeError::InvalidData),
            }
        },
    }
}

/// The position of the first variant with discriminant `d`.
pub fn find_variant_index(vs: &Vec<VariantType>, d: i32) -> (r: Option<usize>)
    ensures
        match (r, first_variant(vs@, d)) {
            (Some(i), Some(j)) => i == j,
            (None, None) => true,
            _ => false,
        },
{
    proof {
        lemma_first_variant(vs@, d);
    }
    let mut i: usize = 0;
    while i < vs.len()
        invariant
            i <= vs@.len(),
            forall|j: int| 0 <= j < i ==> vs@[j].discriminant != d,
        decreases vs@.len() - i,
    {
        if vs[i].discriminant == d {
            proof {
                lemma_first_variant(vs@, d);
                match first_variant(vs@, d) {
                    Some(k) => {
                        if k < i {
                        } else if k > i {
                            assert(vs@[i as int].discriminant != d);
                        }
                    },
                    None => {
                        assert(vs@[i as int].discriminant != d);
                    },
                }
            }
            return Some(i);
        }
        i = i + 1;
    }
    None
}

/// Outer-form decoding of a value of type `t` from `buf[pos..end]`.
pub fn decode_out(t: &ValueType, buf: &[u8], pos: usize, end: usize) -> (r: Result<(DynamicValue, usize), DecodeError>)
    requires
        pos <= end <= buf@.len(),
    ensures
        agrees(r, dec_out(*t, buf@.subrange(pos as int, end as int)), buf@, end as int),
    decreases *t, 0nat,
{
    let ghost s = buf@.subrange(pos as int, end as int);
    match t {
        ValueType::Struct(fs) => {
            match decode_fields(fs, buf, pos, end) {
                Ok((xs, _)) => Ok((DynamicValue::Struct(xs), pos)),
                Err(e) => Err(e),
            }
        },
        ValueType::List(et) => {
            let n = match read_u32(buf, pos, end) {
                Ok(n) => n,
                Err(e) => return Err(e),
            };
            match decode_elems(&**et, n, buf, pos + 4, end) {
                Ok((xs, _)) => Ok((DynamicValue::List(xs), pos + 4)),
                Err(e) => Err(e),
            }
        },
        ValueType::Enum(vs) => {
            let n = match read_u32(buf, pos, end) {
                Ok(n) => n,
                Err(e) => return Err(e),
            };
            let d = n as i32;
            match find_variant_index(vs, d) {
                None => Err(DecodeError::UnknownField),
                Some(i) => {
                    proof {
                        lemma_first_variant(vs@, d);
                    }
                    match &vs[i].payload {
                        None => Ok((DynamicValue::Enum(d, None), pos + 4)),
                        Some(pt) => {
                            match decode_out(pt, buf, pos + 4, end) {
                                Ok((p, next)) => Ok((DynamicValue::Enum(d, Some(Box::new(p))), next)),
                                Err(e) => Err(e),
                            }
                        },
                    }
                },
            }
        },
        ValueType::Nullable(it) => {
            if pos == end {
                Ok((DynamicValue::Nullable(None), pos))
            } else {
                match decode_out(&**it, buf, pos, end) {
                    Ok((x, _)) => Ok((DynamicValue::Nullable(Some(Box::new(x))), pos)),
                    Err(e) => Err(e),
                }
            }
        },
        _ => decode_scalar(t, buf, pos, end),
    }
}

/// Inner-form decoding of a value of type `t` from `buf[pos..end]`.
pub fn decode_in(t: &ValueType, buf: &[u8], pos: usize, end: usize) -> (r: Result<(DynamicValue, usize), DecodeError>)
    requires
        pos <= end <= buf@.len(),
    ensures
        agrees(r, dec_in(*t, buf@.subrange(pos as int, end as int)), buf@, end as int),
    decreases *t, 1nat,
{
    let ghost s = buf@.subrange(pos as int, end as int);
    match t {
        ValueType::Str | ValueType::Bytes | ValueType::Struct(_) | ValueType::List(_) => {
            let n = match read_u32(buf, pos, end) {
                Ok(n) => n,
                Err(e) => return Err(e),
            };
            let start = pos + 4;
            if ((end - start) as u64) < (n as u64) {
                return Err(DecodeError::OutOfData);
            }
            let stop = start + n as usize;
            proof {
                lemma_window(buf@, start as int, end as int, n as int);
                assert(buf@.subrange(start as int, end as int) =~= buf@.subrange(pos as int, end as int).subrange(4, end - pos));
            }
            match t {
                ValueType::Str | ValueType::Bytes => {
                    match decode_scalar(t, buf, start, stop) {
                        Ok((v, _)) => Ok((v, stop)),
                        Err(e) => Err(e),
                    }
                },
                _ => {
                    match decode_out(t, buf, start, stop) {
                        Ok((v, _)) => Ok((v, stop)),
                        Err(e) => Err(e),
                    }
                },
            }
        },
        ValueType::Nullable(it) => {
            if pos == end {
                return Err(DecodeError::OutOfData);
            }
            proof {
                lemma_window(buf@, pos as int, end as int, 1);
            }
            if buf[pos] != 0 {
                match decode_in(&**it, buf, pos + 1, end) {
                    Ok((x, next)) => Ok((DynamicValue::Nullable(Some(Box::new(x))), next)),
                    Err(e) => Err(e),
                }
            } else {
                Ok((DynamicValue::Nullable(None), pos + 1))
            }
        },
        _ => decode_out(t, buf, pos, end),
    }
}

/// Inner-form decoding of one value per field of `fs`, in order.
fn decode_fields(fs: &Vec<FieldType>, buf: &[u8], pos: usize, end: usize) -> (r: Result<(Vec<DynamicValue>, usize), DecodeError>)
    requires
        pos <= end <= buf@.len(),
    ensures
        match (r, dec_fields(fs@, buf@.subrange(pos as int, end as int))) {
            (Ok((xs, p)), Ok((sxs, rest))) => values_model(xs@) == sxs && p <= end && rest == buf@.subrange(p as int, end as int),
            (Err(e), Err(se)) => e == se,
            _ => false,
        },
    decreases fs, 2nat,
{
    let mut xs: Vec<DynamicValue> = Vec::new();
    let mut p = pos;
    proof {
        assert(values_model(xs@) =~= Seq::<ValueModel>::empty());
        assert forall|ys: Seq<ValueModel>| #[trigger] (values_model(xs@) + ys) == ys by {
            assert(values_model(xs@) + ys =~= ys);
        }
    }
    let mut i: usize = 0;
    proof {
        assert(fs@.skip(0) =~= fs@);
    }
    while i < fs.len()
        invariant
            p <= end <= buf@.len(),
            i <= fs@.len(),
            dec_fields(fs@, buf@.subrange(pos as int, end as int)) == (match dec_fields(fs@.skip(i as int), buf@.subrange(p as int, end as int)) {
                Ok((ys, r2)) => Ok((values_model(xs@) + ys, r2)),
                Err(e) => Err(e),
            }),
        decreases fs@.len() - i,
    {
        let ghost rest_fs = fs@.skip(i as int);
        proof {
            assert(rest_fs[0] == fs@[i as int]);
            assert(rest_fs.drop_first() =~= fs@.skip(i + 1));
        }
        match decode_in(&fs[i].ty, buf, p, end) {
            Ok((x, next)) => {
                let ghost old_xs = xs@;
                xs.push(x);
                proof {
                    lemma_values_model_push(old_xs, x);
                    assert(forall|ys: Seq<ValueModel>| #[trigger] (values_model(old_xs) + (seq![x@] + ys)) == values_model(xs@) + ys) by {
                        assert forall|ys: Seq<ValueModel>| #[trigger] (values_model(old_xs) + (seq![x@] + ys)) == values_model(xs@) + ys by {
                            assert(values_model(old_xs) + (seq![x@] + ys) =~= values_model(xs@) + ys);
                        }
                    }
                }
                p = next;
            },
            Err(e) => {
                return Err(e);
            },
        }
        i = i + 1;
    }
    proof {
        assert(fs@.skip(i as int) =~= Seq::<FieldType>::empty());
        assert(values_model(xs@) + Seq::<ValueModel>::empty() =~= values_model(xs@));
    }
    Ok((xs, p))
}

/// Inner-form decoding of `n` values of type `t`, one after another.
fn decode_elems(t: &ValueType, n: u32, buf: &[u8], pos: usize, end: usize) -> (r: Result<(Vec<DynamicValue>, usize), DecodeError>)
    requires
        pos <= end <= buf@.len(),
    ensures
        match (r, dec_elems(*t, n as nat, buf@.subrange(pos as int, end as int))) {
            (Ok((xs, p)), Ok((sxs, rest))) => values_model(xs@) == sxs && p <= end && rest == buf@.subrange(p as int, end as int),
            (Err(e), Err(se)) => e == se,
            _ => false,
        },
    decreases *t, 3nat,
{
    let mut xs: Vec<DynamicValue> = Vec::new();
    let mut p = pos;
    proof {
        assert(values_model(xs@) =~= Seq::<ValueModel>::empty());
        assert forall|ys: Seq<ValueModel>| #[trigger] (values_model(xs@) + ys) == ys by {
            assert(values_model(xs@) + ys =~= ys);
        }
    }
    let mut i: u32 = 0;
    while i < n
        invariant
            p <= end <= buf@.len(),
            i <= n,
            dec_elems(*t, n as nat, buf@.subrange(pos as int, end as int)) == (match dec_elems(*t, (n - i) as nat, buf@.subrange(p as int, end as int)) {
                Ok((ys, r2)) => Ok((values_model(xs@) + ys, r2)),
                Err(e) => Err(e),
            }),
        decreases n - i,
    {
        match decode_in(t, buf, p, end) {
            Ok((x, next)) => {
                let ghost old_xs = xs@;
                xs.push(x);
                proof {
                    lemma_values_model_push(old_xs, x);
                    assert forall|ys: Seq<ValueModel>| #[trigger] (values_model(old_xs) + (seq![x@] + ys)) == values_model(xs@) + ys by {
                        assert(values_model(old_xs) + (seq![x@] + ys) =~= values_model(xs@) + ys);
                    }
                }
                p = next;
            },
            Err(e) => {
                return Err(e);
            },
        }
        i = i + 1;
    }
    proof {
        assert(values_model(xs@) + Seq::<ValueModel>::empty() =~= values_model(xs@));
    }
    Ok((xs, p))
}

/// The model of a sequence with one more value at the end.
pub proof fn lemma_values_model_push(xs: Seq<DynamicValue>, x: DynamicValue)
    ensures
        values_model(xs.push(x)) == values_model(xs).push(x@),
    decreases xs.len(),
{
    if xs.len() == 0 {
        assert(xs.push(x).drop_first() =~= Seq::<DynamicValue>::empty());
        assert(xs.push(x)[0] == x);
        assert(values_model(Seq::<DynamicValue>::empty()) =~= Seq::<ValueModel>::empty());
        assert(values_model(xs.push(x)) == seq![value_model(x)] + values_model(Seq::<DynamicValue>::empty()));
        assert(values_model(xs.push(x)) =~= values_model(xs).push(x@));
    } else {
        assert(xs.push(x).drop_first() =~= xs.drop_first().push(x));
        assert(xs.push(x)[0] == xs[0]);
        lemma_values_model_push(xs.drop_first(), x);
        let a = seq![value_model(xs[0])];
        assert(values_model(xs.push(x)) == a + values_model(xs.drop_first().push(x)));
        assert(values_model(xs) == a + values_model(xs.drop_first()));
        assert(values_model(xs.push(x)) =~= values_model(xs).push(x@));
    }
}

} // verus!
