//! Encoding into the native binary format, and the sizes of encodings.
use crate::binary::format::{enc_in, enc_in_seq, enc_out, le32};
use crate::value::{value_model, values_model, DynamicValue, ValueModel};
use vstd::bytes::*;
use vstd::prelude::*;

verus! {

/// The models of a sequence of values, element by element.
pub proof fn lemma_values_model_index(xs: Seq<DynamicValue>)
    ensures
        values_model(xs).len() == xs.len(),
        forall|i: int| 0 <= i < xs.len() ==> #[trigger] values_model(xs)[i] == value_model(xs[i]),
    decreases xs.len(),
{
    if xs.len() > 0 {
        lemma_values_model_index(xs.drop_first());
        assert forall|i: int| 0 <= i < xs.len() implies #[trigger] values_model(xs)[i] == value_model(xs[i]) by {
            if i > 0 {
                assert(xs.drop_first()[i - 1] == xs[i]);
            }
        }
    }
}

/// The encodings of a sequence split at any index.
pub proof fn lemma_enc_in_seq_split(xs: Seq<ValueModel>, i: int)
    requires
        0 <= i <= xs.len(),
    ensures
        enc_in_seq(xs) == enc_in_seq(xs.take(i)) + enc_in_seq(xs.skip(i)),
    decreases i,
{
    if i == 0 {
        assert(xs.take(0) =~= Seq::<ValueModel>::empty());
        assert(xs.skip(0) =~= xs);
        assert(enc_in_seq(xs.take(0)) + enc_in_seq(xs) =~= enc_in_seq(xs));
    } else {
        lemma_enc_in_seq_split(xs.drop_first(), i - 1);
        assert(xs.take(i)[0] == xs[0]);
        assert(xs.take(i).drop_first() =~= xs.drop_first().take(i - 1));
        assert(xs.drop_first().skip(i - 1) =~= xs.skip(i));
        assert(enc_in_seq(xs) =~= enc_in_seq(xs.take(i)) + enc_in_seq(xs.skip(i)));
    }
}

/// The encoding of the values from index `i` on starts with the encoding of value `i`.
pub proof fn lemma_enc_in_seq_step(xs: Seq<ValueModel>, i: int)
    requires
        0 <= i < xs.len(),
    ensures
        enc_in_seq(xs.skip(i)) == enc_in(xs[i]) + enc_in_seq(xs.skip(i + 1)),
        enc_in_seq(xs.take(i + 1)) == enc_in_seq(xs.take(i)) + enc_in(xs[i]),
{
    assert(xs.skip(i)[0] == xs[i]);
    assert(xs.skip(i).drop_first() =~= xs.skip(i + 1));
    lemma_enc_in_seq_split(xs.take(i + 1), i);
    assert(xs.take(i + 1).take(i) =~= xs.take(i));
    assert(xs.take(i + 1).skip(i) =~= seq![xs[i]]);
    assert(seq![xs[i]].drop_first() =~= Seq::<ValueModel>::empty());
    assert(seq![xs[i]][0] == xs[i]);
    assert(enc_in_seq(Seq::<ValueModel>::empty()) == Seq::<u8>::empty());
    assert(enc_in_seq(seq![xs[i]]) == enc_in(xs[i]) + enc_in_seq(Seq::<ValueModel>::empty()));
    assert(enc_in_seq(seq![xs[i]]) =~= enc_in(xs[i]));
}

/// The length of the outer-form encoding of `v`.
pub fn size_out(v: &DynamicValue) -> (n: usize)
    requires
        enc_out(v@).len() <= usize::MAX,
    ensures
        n == enc_out(v@).len(),
    decreases *v, 0nat,
{
    match v {
        DynamicValue::U8(_) | DynamicValue::I8(_) | DynamicValue::Bool(_) => 1,
        DynamicValue::U16(x) => {
            proof { lemma_auto_spec_u16_to_from_le_bytes(); }
            2
        },
        DynamicValue::I16(x) => {
            proof { lemma_auto_spec_u16_to_from_le_bytes(); }
            2
        },
        DynamicValue::U32(_) | DynamicValue::I32(_) => {
            proof { lemma_auto_spec_u32_to_from_le_bytes(); }
            4
        },
        DynamicValue::U64(_) | DynamicValue::I64(_) => {
            proof { lemma_auto_spec_u64_to_from_le_bytes(); }
            8
        },
        DynamicValue::U128(_) | DynamicValue::I128(_) | DynamicValue::Time(_) | DynamicValue::Duration(_) | DynamicValue::AccountID(_) => {
            proof { lemma_auto_spec_u128_to_from_le_bytes(); }
            16
        },
        DynamicValue::Str(s) => s.as_str().as_bytes().len(),
        DynamicValue::Bytes(b) => b.len(),
        DynamicValue::Struct(xs) => size_in_all(xs),
        DynamicValue::List(xs) => {
            proof { lemma_auto_spec_u32_to_from_le_bytes(); }
            4 + size_in_all(xs)
        },
        DynamicValue::Enum(_, p) => {
            proof { lemma_auto_spec_u32_to_from_le_bytes(); }
            match p {
                Some(b) => 4 + size_out(&**b),
                None => 4,
            }
        },
        DynamicValue::Nullable(p) => match p {
            Some(b) => size_out(&**b),
            None => 0,
        },
        DynamicValue::AnyMessage(_) => 0,
    }
}

/// The length of the inner-form encoding of `v`.
pub fn size_in(v: &DynamicValue) -> (n: usize)
    requires
        enc_in(v@).len() <= usize::MAX,
    ensures
        n == enc_in(v@).len(),
    decreases *v, 1nat,
{
    proof { lemma_auto_spec_u32_to_from_le_bytes(); }
    match v {
        DynamicValue::Str(_) | DynamicValue::Bytes(_) | DynamicValue::Struct(_) | DynamicValue::List(_) => 4 + size_out(v),
        DynamicValue::Nullable(p) => match p {
            Some(b) => 1 + size_in(&**b),
            None => 1,
        },
        _ => size_out(v),
    }
}

/// The total length of the inner-form encodings of `xs`.
fn size_in_all(xs: &Vec<DynamicValue>) -> (n: usize)
    requires
        enc_in_seq(values_model(xs@)).len() <= usize::MAX,
    ensures
        n == enc_in_seq(values_model(xs@)).len(),
    decreases xs, 2nat,
{
    let ghost m = values_model(xs@);
    proof {
        lemma_values_model_index(xs@);
        assert(m.take(0) =~= Seq::<ValueModel>::empty());
    }
    let mut total: usize = 0;
    let mut i: usize = 0;
    while i < xs.len()
        invariant
            m == values_model(xs@),
            m.len() == xs@.len(),
            forall|j: int| 0 <= j < xs@.len() ==> #[trigger] m[j] == value_model(xs@[j]),
            i <= xs@.len(),
            enc_in_seq(m).len() <= usize::MAX,
            total == enc_in_seq(m.take(i as int)).len(),
        decreases xs@.len() - i,
    {
        proof {
            lemma_enc_in_seq_step(m, i as int);
            lemma_enc_in_seq_split(m, i as int);
            assert(m[i as int] == xs@[i as int]@);
        }
        let k = size_in(&xs[i]);
        total = total + k;
        i = i + 1;
    }
    proof {
        assert(m.take(i as int) =~= m);
    }
    total
}

/// Appends the outer-form encoding of `v` to `out`.
pub fn encode_out(v: &DynamicValue, out: &mut Vec<u8>)
    requires
        enc_out(v@).len() <= usize::MAX,
    ensures
        final(out)@ == old(out)@ + enc_out(v@),
    decreases *v, 0nat,
{
    match v {
        DynamicValue::U8(x) => out.push(*x),
        DynamicValue::I8(x) => out.push(*x as u8),
        DynamicValue::Bool(x) => out.push(if *x { 1u8 } else { 0u8 }),
        DynamicValue::U16(x) => {
            let b = u16_to_le_bytes(*x);
            out.extend_from_slice(b.as_slice());
        },
        DynamicValue::I16(x) => {
            let b = u16_to_le_bytes(*x as u16);
            out.extend_from_slice(b.as_slice());
        },
        DynamicValue::U32(x) => {
            let b = u32_to_le_bytes(*x);
            out.extend_from_slice(b.as_slice());
        },
        DynamicValue::I32(x) => {
            let b = u32_to_le_bytes(*x as u32);
            out.extend_from_slice(b.as_slice());
        },
        DynamicValue::U64(x) => {
            let b = u64_to_le_bytes(*x);
            out.extend_from_slice(b.as_slice());
        },
        DynamicValue::I64(x) => {
            let b = u64_to_le_bytes(*x as u64);
            out.extend_from_slice(b.as_slice());
        },
        DynamicValue::U128(x) => {
            let b = u128_to_le_bytes(*x);
            out.extend_from_slice(b.as_slice());
        },
        DynamicValue::I128(x) => {
            let b = u128_to_le_bytes(*x as u128);
            out.extend_from_slice(b.as_slice());
        },
        DynamicValue::Time(x) => {
            let b = u128_to_le_bytes(*x as u128);
            out.extend_from_slice(b.as_slice());
        },
        DynamicValue::Duration(x) => {
            let b = u128_to_le_bytes(*x as u128);
            out.extend_from_slice(b.as_slice());
        },
        DynamicValue::AccountID(x) => {
            let b = u128_to_le_bytes(*x);
            out.extend_from_slice(b.as_slice());
        },
        DynamicValue::Str(s) => {
            out.extend_from_slice(s.as_str().as_bytes());
        },
        DynamicValue::Bytes(b) => {
            out.extend_from_slice(b.as_slice());
        },
        DynamicValue::Struct(xs) => {
            encode_in_all(xs, out);
        },
        DynamicValue::List(xs) => {
            let b = u32_to_le_bytes(xs.len() as u32);
            out.extend_from_slice(b.as_slice());
            proof {
                lemma_values_model_index(xs@);
            }
            encode_in_all(xs, out);
            proof {
                assert(final(out)@ =~= old(out)@ + enc_out(v@));
            }
        },
        DynamicValue::Enum(d, p) => {
            let b = u32_to_le_bytes(*d as u32);
            out.extend_from_slice(b.as_slice());
            match p {
                Some(x) => {
                    encode_out(&**x, out);
                    proof {
                        assert(final(out)@ =~= old(out)@ + enc_out(v@));
                    }
                },
                None => {
                    proof {
                        assert(final(out)@ =~= old(out)@ + enc_out(v@));
                    }
                },
            }
        },
        DynamicValue::Nullable(p) => match p {
            Some(x) => encode_out(&**x, out),
            None => {
                proof {
                    assert(final(out)@ =~= old(out)@ + enc_out(v@));
                }
            },
        },
        DynamicValue::AnyMessage(_) => {
            proof {
                assert(final(out)@ =~= old(out)@ + enc_out(v@));
            }
        },
    }
}

/// Appends the inner-form encoding of `v` to `out`.
pub fn encode_in(v: &DynamicValue, out: &mut Vec<u8>)
    requires
        enc_in(v@).len() <= usize::MAX,
    ensures
        final(out)@ == old(out)@ + enc_in(v@),
    decreases *v, 1nat,
{
    match v {
        DynamicValue::Str(_) | DynamicValue::Bytes(_) | DynamicValue::Struct(_) | DynamicValue::List(_) => {
            let n = size_out(v);
            let b = u32_to_le_bytes(n as u32);
            out.extend_from_slice(b.as_slice());
            encode_out(v, out);
            proof {
                assert(final(out)@ =~= old(out)@ + enc_in(v@));
            }
        },
        DynamicValue::Nullable(p) => match p {
            Some(x) => {
                out.push(1u8);
                encode_in(&**x, out);
                proof {
                    assert(final(out)@ =~= old(out)@ + enc_in(v@));
                }
            },
            None => {
                out.push(0u8);
                proof {
                    assert(final(out)@ =~= old(out)@ + enc_in(v@));
                }
            },
        },
        _ => encode_out(v, out),
    }
}

/// Appends the inner-form encodings of `xs`, in order.
fn encode_in_all(xs: &Vec<DynamicValue>, out: &mut Vec<u8>)
    requires
        enc_in_seq(values_model(xs@)).len() <= usize::MAX,
    ensures
        final(out)@ == old(out)@ + enc_in_seq(values_model(xs@)),
    decreases xs, 2nat,
{
    let ghost m = values_model(xs@);
    let ghost start = out@;
    proof {
        lemma_values_model_index(xs@);
        assert(m.take(0) =~= Seq::<ValueModel>::empty());
        assert(out@ =~= start + enc_in_seq(m.take(0)));
    }
    let mut i: usize = 0;
    while i < xs.len()
        invariant
            m == values_model(xs@),
            m.len() == xs@.len(),
            forall|j: int| 0 <= j < xs@.len() ==> #[trigger] m[j] == value_model(xs@[j]),
            i <= xs@.len(),
            enc_in_seq(m).len() <= usize::MAX,
            out@ == start + enc_in_seq(m.take(i as int)),
        decreases xs@.len() - i,
    {
        proof {
            lemma_enc_in_seq_step(m, i as int);
            lemma_enc_in_seq_split(m, i as int);
            assert(m[i as int] == xs@[i as int]@);
        }
        encode_in(&xs[i], out);
        proof {
            assert(out@ =~= start + enc_in_seq(m.take(i + 1)));
        }
        i = i + 1;
    }
    proof {
        assert(m.take(i as int) =~= m);
    }
}

} // verus!
