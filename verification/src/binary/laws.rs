//! What decoding gives back of an encoding.
use crate::binary::format::{dec_elems, dec_fields, dec_in, dec_out, dec_scalar, enc_in, enc_in_seq, enc_out, le32, take, take_sized, take_u32};
use crate::value::{elems_have_type, fields_have_types, first_variant, has_type, lemma_first_variant, FieldType, ValueModel, ValueType};
use vstd::bytes::*;
use vstd::prelude::*;
use vstd::utf8::{encode_utf8, encode_utf8_decode_utf8, encode_utf8_valid_utf8};

verus! {

/// Outer-form values that end where their encoding ends and leave the decoder just past
/// it: scalars of fixed width, and enums whose value (if any) is such a value.
pub open spec fn out_delimited(v: ValueModel) -> bool
    decreases v,
{
    match v {
        ValueModel::Str(_) => false,
        ValueModel::Bytes(_) => false,
        ValueModel::Struct(_) => false,
        ValueModel::List(_) => false,
        ValueModel::Nullable(_) => false,
        ValueModel::Enum(_, p) => match p {
            Some(b) => out_delimited(*b),
            None => true,
        },
        _ => true,
    }
}

/// Values whose outer-form encoding, read to its end and no further, decodes back to them.
pub open spec fn out_complete(v: ValueModel) -> bool
    decreases v, 0nat,
{
    match v {
        ValueModel::Struct(xs) => seq_ok(xs),
        ValueModel::List(xs) => seq_ok(xs),
        ValueModel::Enum(_, p) => match p {
            Some(b) => out_complete(*b),
            None => true,
        },
        ValueModel::Nullable(p) => match p {
            Some(b) => enc_out(*b).len() > 0 && out_complete(*b),
            None => true,
        },
        _ => true,
    }
}

/// Values whose inner-form encoding decodes back to them whatever follows it.
pub open spec fn in_delimited(v: ValueModel) -> bool
    decreases v, 1nat,
{
    match v {
        ValueModel::Struct(xs) => seq_ok(xs),
        ValueModel::List(xs) => seq_ok(xs),
        ValueModel::Enum(_, _) => out_delimited(v),
        ValueModel::Nullable(p) => match p {
            Some(b) => in_delimited(*b),
            None => true,
        },
        _ => true,
    }
}

/// Values whose inner-form encoding, read to its end and no further, decodes back to them.
pub open spec fn in_complete(v: ValueModel) -> bool
    decreases v, 1nat,
{
    match v {
        ValueModel::Struct(xs) => seq_ok(xs),
        ValueModel::List(xs) => seq_ok(xs),
        ValueModel::Enum(_, _) => out_complete(v),
        ValueModel::Nullable(p) => match p {
            Some(b) => in_complete(*b),
            None => true,
        },
        _ => true,
    }
}

/// Sequences of values encoded one after another in inner form that decode back: every
/// value but the last decodes whatever follows it, and the last decodes when read to the end.
pub open spec fn seq_ok(xs: Seq<ValueModel>) -> bool
    decreases xs, 2nat,
{
    if xs.len() == 0 {
        true
    } else if xs.len() == 1 {
        in_complete(xs[0])
    } else {
        in_delimited(xs[0]) && seq_ok(xs.drop_first())
    }
}

proof fn lemma_take_prefix(a: Seq<u8>, b: Seq<u8>, k: int)
    requires
        a.len() == k,
    ensures
        take(a + b, k) == Ok::<(Seq<u8>, Seq<u8>), crate::errors::DecodeError>((a, b)),
{
    assert((a + b).subrange(0, k) =~= a);
    assert((a + b).subrange(k, (a + b).len() as int) =~= b);
}

proof fn lemma_take_u32_prefix(n: u32, b: Seq<u8>)
    ensures
        take_u32(spec_u32_to_le_bytes(n) + b) == Ok::<(u32, Seq<u8>), crate::errors::DecodeError>((n, b)),
{
    lemma_auto_spec_u32_to_from_le_bytes();
    lemma_take_prefix(spec_u32_to_le_bytes(n), b, 4);
}

proof fn lemma_take_sized_prefix(a: Seq<u8>, b: Seq<u8>)
    requires
        a.len() <= u32::MAX,
    ensures
        take_sized(le32(a.len() as int) + a + b) == Ok::<(Seq<u8>, Seq<u8>), crate::errors::DecodeError>((a, b)),
{
    assert(le32(a.len() as int) + a + b =~= spec_u32_to_le_bytes(a.len() as u32) + (a + b));
    lemma_take_u32_prefix(a.len() as u32, a + b);
    lemma_take_prefix(a, b, a.len() as int);
}

/// Every inner-form encoding is at least one byte long.
pub proof fn lemma_enc_in_nonempty(v: ValueModel)
    requires
        !(v is AnyMessage),
    ensures
        enc_in(v).len() >= 1,
{
    lemma_auto_spec_u16_to_from_le_bytes();
    lemma_auto_spec_u32_to_from_le_bytes();
    lemma_auto_spec_u64_to_from_le_bytes();
    lemma_auto_spec_u128_to_from_le_bytes();
    match v {
        ValueModel::Enum(d, p) => {
            assert(enc_in(v) == enc_out(v));
            assert(spec_u32_to_le_bytes(d as u32).len() == 4);
            let rest = match p {
                Some(b) => enc_out(*b),
                None => Seq::<u8>::empty(),
            };
            assert(enc_out(v) == spec_u32_to_le_bytes(d as u32) + rest);
            assert(enc_out(v).len() >= spec_u32_to_le_bytes(d as u32).len());
            assert(enc_in(v).len() >= 4);
        },
        ValueModel::Struct(_) => {
            assert(enc_in(v).len() >= le32(enc_out(v).len() as int).len());
        },
        ValueModel::List(_) => {
            assert(enc_in(v).len() >= le32(enc_out(v).len() as int).len());
        },
        ValueModel::Str(s) => {
            assert(enc_in(v).len() >= le32(encode_utf8(s).len() as int).len());
        },
        ValueModel::Bytes(b) => {
            assert(enc_in(v).len() >= le32(b.len() as int).len());
        },
        ValueModel::Nullable(p) => {
            assert(enc_in(v).len() >= 1);
        },
        _ => {
            assert(enc_in(v) == enc_out(v));
            assert(enc_in(v).len() >= 1);
        },
    }
}

/// A sequence of inner-form encodings is at least as long as the number of values.
pub proof fn lemma_enc_in_seq_len(xs: Seq<ValueModel>)
    requires
        forall|i: int| 0 <= i < xs.len() ==> !(#[trigger] xs[i] is AnyMessage),
    ensures
        enc_in_seq(xs).len() >= xs.len(),
        xs.len() > 0 ==> enc_in_seq(xs).len() >= enc_in(xs[0]).len(),
    decreases xs.len(),
{
    if xs.len() > 0 {
        lemma_enc_in_nonempty(xs[0]);
        assert forall|i: int| 0 <= i < xs.drop_first().len() implies !(#[trigger] xs.drop_first()[i] is AnyMessage) by {
            assert(xs.drop_first()[i] == xs[i + 1]);
        }
        lemma_enc_in_seq_len(xs.drop_first());
    }
}

/// Values of a type are never packed messages, which no schema type describes.
proof fn lemma_typed_not_message(xs: Seq<ValueModel>, ts: Seq<ValueType>)
    requires
        xs.len() == ts.len(),
        forall|i: int| 0 <= i < xs.len() ==> has_type(#[trigger] xs[i], ts[i]),
    ensures
        forall|i: int| 0 <= i < xs.len() ==> !(#[trigger] xs[i] is AnyMessage),
{
    assert forall|i: int| 0 <= i < xs.len() implies !(#[trigger] xs[i] is AnyMessage) by {
        assert(has_type(xs[i], ts[i]));
    }
}

/// Scalars of fixed width decode back whatever follows them.
proof fn lemma_scalar(v: ValueModel, t: ValueType, tail: Seq<u8>)
    requires
        has_type(v, t),
        !(v is Str || v is Bytes || v is Struct || v is List || v is Enum || v is Nullable),
    ensures
        dec_out(t, enc_out(v) + tail) == Ok::<(ValueModel, Seq<u8>), crate::errors::DecodeError>((v, tail)),
{
    lemma_auto_spec_u16_to_from_le_bytes();
    lemma_auto_spec_u32_to_from_le_bytes();
    lemma_auto_spec_u64_to_from_le_bytes();
    lemma_auto_spec_u128_to_from_le_bytes();
    let e = enc_out(v);
    lemma_take_prefix(e, tail, e.len() as int);
    match v {
        ValueModel::U8(x) => {},
        ValueModel::I8(x) => {
            assert((x as u8) as i8 == x) by (bit_vector);
        },
        ValueModel::I16(x) => {
            assert((x as u16) as i16 == x) by (bit_vector);
        },
        ValueModel::I32(x) => {
            assert((x as u32) as i32 == x) by (bit_vector);
        },
        ValueModel::I64(x) => {
            assert((x as u64) as i64 == x) by (bit_vector);
        },
        ValueModel::I128(x) => {
            assert((x as u128) as i128 == x) by (bit_vector);
        },
        ValueModel::Time(x) => {
            assert((x as u128) as i128 == x) by (bit_vector);
        },
        ValueModel::Duration(x) => {
            assert((x as u128) as i128 == x) by (bit_vector);
        },
        _ => {},
    }
}

/// Outer-delimited values decode back whatever follows them.
pub proof fn lemma_out_delimited(v: ValueModel, t: ValueType, tail: Seq<u8>)
    requires
        has_type(v, t),
        out_delimited(v),
    ensures
        dec_out(t, enc_out(v) + tail) == Ok::<(ValueModel, Seq<u8>), crate::errors::DecodeError>((v, tail)),
    decreases v, 0nat,
{
    match v {
        ValueModel::Enum(d, p) => {
            let vs = t->Enum_0;
            lemma_first_variant(vs@, d);
            let i = first_variant(vs@, d)->0;
            assert((d as u32) as i32 == d) by (bit_vector);
            match p {
                Some(b) => {
                    let pt = vs@[i].payload->0;
                    assert(enc_out(v) + tail =~= spec_u32_to_le_bytes(d as u32) + (enc_out(*b) + tail));
                    lemma_take_u32_prefix(d as u32, enc_out(*b) + tail);
                    lemma_out_delimited(*b, pt, tail);
                },
                None => {
                    assert(enc_out(v) + tail =~= spec_u32_to_le_bytes(d as u32) + tail);
                    lemma_take_u32_prefix(d as u32, tail);
                },
            }
        },
        _ => {
            lemma_scalar(v, t, tail);
        },
    }
}

/// Outer-complete values decode back from their encoding read to its end.
pub proof fn lemma_out_complete(v: ValueModel, t: ValueType)
    requires
        has_type(v, t),
        out_complete(v),
        enc_out(v).len() <= u32::MAX,
    ensures
        dec_out(t, enc_out(v)) matches Ok((x, _)) && x == v,
    decreases v, 1nat,
{
    lemma_auto_spec_u32_to_from_le_bytes();
    match v {
        ValueModel::Str(s) => {
            encode_utf8_valid_utf8(s);
            encode_utf8_decode_utf8(s);
        },
        ValueModel::Bytes(_) => {},
        ValueModel::Struct(xs) => {
            lemma_fields(xs, t->Struct_0@);
        },
        ValueModel::List(xs) => {
            let et = *t->List_0;
            crate::json::roundtrip::lemma_elems_have_type_index(xs, et);
            lemma_typed_not_message(xs, Seq::new(xs.len(), |i: int| et));
            lemma_enc_in_seq_len(xs);
            lemma_take_u32_prefix(xs.len() as u32, enc_in_seq(xs));
            lemma_elems(xs, et);
        },
        ValueModel::Enum(d, p) => {
            let vs = t->Enum_0;
            lemma_first_variant(vs@, d);
            let i = first_variant(vs@, d)->0;
            assert((d as u32) as i32 == d) by (bit_vector);
            match p {
                Some(b) => {
                    let pt = vs@[i].payload->0;
                    lemma_take_u32_prefix(d as u32, enc_out(*b));
                    lemma_out_complete(*b, pt);
                },
                None => {
                    assert(enc_out(v) =~= spec_u32_to_le_bytes(d as u32) + Seq::<u8>::empty());
                    lemma_take_u32_prefix(d as u32, Seq::empty());
                },
            }
        },
        ValueModel::Nullable(p) => {
            match p {
                Some(b) => {
                    lemma_out_complete(*b, *t->Nullable_0);
                },
                None => {},
            }
        },
        _ => {
            lemma_scalar(v, t, Seq::empty());
            assert(enc_out(v) + Seq::<u8>::empty() =~= enc_out(v));
        },
    }
}

/// Inner-delimited values decode back whatever follows them.
pub proof fn lemma_in_delimited(v: ValueModel, t: ValueType, tail: Seq<u8>)
    requires
        has_type(v, t),
        in_delimited(v),
        enc_in(v).len() <= u32::MAX,
    ensures
        dec_in(t, enc_in(v) + tail) == Ok::<(ValueModel, Seq<u8>), crate::errors::DecodeError>((v, tail)),
    decreases v, 2nat,
{
    match v {
        ValueModel::Str(s) => {
            encode_utf8_valid_utf8(s);
            encode_utf8_decode_utf8(s);
            lemma_take_sized_prefix(encode_utf8(s), tail);
        },
        ValueModel::Bytes(b) => {
            lemma_take_sized_prefix(b, tail);
        },
        ValueModel::Struct(_) => {
            lemma_take_sized_prefix(enc_out(v), tail);
            lemma_out_complete(v, t);
        },
        ValueModel::List(_) => {
            lemma_take_sized_prefix(enc_out(v), tail);
            lemma_out_complete(v, t);
        },
        ValueModel::Enum(_, _) => {
            lemma_out_delimited(v, t, tail);
        },
        ValueModel::Nullable(p) => {
            match p {
                Some(b) => {
                    assert(enc_in(v) + tail =~= seq![1u8] + (enc_in(*b) + tail));
                    lemma_take_prefix(seq![1u8], enc_in(*b) + tail, 1);
                    lemma_in_delimited(*b, *t->Nullable_0, tail);
                },
                None => {
                    lemma_take_prefix(seq![0u8], tail, 1);
                },
            }
        },
        _ => {
            lemma_scalar(v, t, tail);
        },
    }
}

/// Inner-complete values decode back from their encoding read to its end.
pub proof fn lemma_in_complete(v: ValueModel, t: ValueType)
    requires
        has_type(v, t),
        in_complete(v),
        enc_in(v).len() <= u32::MAX,
    ensures
        dec_in(t, enc_in(v)) matches Ok((x, _)) && x == v,
    decreases v, 3nat,
{
    match v {
        ValueModel::Enum(_, _) => {
            lemma_out_complete(v, t);
        },
        ValueModel::Nullable(p) => {
            match p {
                Some(b) => {
                    lemma_take_prefix(seq![1u8], enc_in(*b), 1);
                    lemma_in_complete(*b, *t->Nullable_0);
                },
                None => {
                    lemma_take_prefix(seq![0u8], Seq::empty(), 1);
                },
            }
        },
        _ => {
            lemma_in_delimited(v, t, Seq::empty());
            assert(enc_in(v) + Seq::<u8>::empty() =~= enc_in(v));
        },
    }
}

/// Field values encoded one after another decode back.
pub proof fn lemma_fields(xs: Seq<ValueModel>, fs: Seq<FieldType>)
    requires
        fields_have_types(xs, fs),
        seq_ok(xs),
        enc_in_seq(xs).len() <= u32::MAX,
    ensures
        dec_fields(fs, enc_in_seq(xs)) matches Ok((ys, _)) && ys == xs,
    decreases xs, 4nat,
{
    reveal_with_fuel(dec_fields, 2);
    reveal_with_fuel(dec_elems, 2);
    if xs.len() == 0 {
        assert(xs =~= Seq::<ValueModel>::empty());
    } else {
        let rest = xs.drop_first();
        assert(fs.len() > 0);
        assert(has_type(xs[0], fs[0].ty));
        assert(fields_have_types(rest, fs.drop_first()));
        if xs.len() == 1 {
            assert(fs.drop_first().len() == 0);
        }
        crate::json::roundtrip::lemma_fields_have_types_index(xs, fs);
        lemma_typed_not_message(xs, fs.map_values(|f: FieldType| f.ty));
        lemma_enc_in_seq_len(xs);
        if xs.len() == 1 {
            assert(rest.len() == 0);
            assert(enc_in_seq(rest) == Seq::<u8>::empty());
            assert(enc_in_seq(xs) =~= enc_in(xs[0]));
            lemma_in_complete(xs[0], fs[0].ty);
            assert(seq![xs[0]] + Seq::<ValueModel>::empty() =~= xs);
        } else {
            lemma_in_delimited(xs[0], fs[0].ty, enc_in_seq(rest));
            lemma_fields(rest, fs.drop_first());
            assert(seq![xs[0]] + rest =~= xs);
        }
    }
}


/// List elements encoded one after another decode back.
pub proof fn lemma_elems(xs: Seq<ValueModel>, t: ValueType)
    requires
        elems_have_type(xs, t),
        seq_ok(xs),
        enc_in_seq(xs).len() <= u32::MAX,
    ensures
        dec_elems(t, xs.len(), enc_in_seq(xs)) matches Ok((ys, _)) && ys == xs,
    decreases xs, 4nat,
{
    reveal_with_fuel(dec_fields, 2);
    reveal_with_fuel(dec_elems, 2);
    if xs.len() == 0 {
        assert(xs =~= Seq::<ValueModel>::empty());
    } else {
        let rest = xs.drop_first();
        crate::json::roundtrip::lemma_elems_have_type_index(xs, t);
        lemma_typed_not_message(xs, Seq::new(xs.len(), |i: int| t));
        lemma_enc_in_seq_len(xs);
        if xs.len() == 1 {
            assert(rest.len() == 0);
            assert(enc_in_seq(rest) == Seq::<u8>::empty());
            assert(enc_in_seq(xs) =~= enc_in(xs[0]));
            lemma_in_complete(xs[0], t);
            assert(seq![xs[0]] + Seq::<ValueModel>::empty() =~= xs);
        } else {
            lemma_in_delimited(xs[0], t, enc_in_seq(rest));
            lemma_elems(rest, t);
            assert(seq![xs[0]] + rest =~= xs);
        }
    }
}


/// Decoding the top-level encoding of a value of type `t` gives the value back, for every
/// value whose encoding delimits itself where the format relies on it (see [`out_complete`])
/// and whose encoding fits the format's `u32` lengths.
pub proof fn lemma_roundtrip(v: ValueModel, t: ValueType)
    requires
        has_type(v, t),
        out_complete(v),
        enc_out(v).len() <= u32::MAX,
    ensures
        dec_out(t, enc_out(v)) matches Ok((x, _)) && x == v,
{
    lemma_out_complete(v, t);
}

} // verus!
