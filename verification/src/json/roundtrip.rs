//! Decoding gives back what encoding wrote: the JSON tree of an encoded value decodes to it,
//! and the encoder writes exactly the text of that tree.
use crate::digits::{dec_digits_val, dec_val, digit_char, digits, parse_int};
use crate::dynamic::{default_model, fields_default};
use crate::errors::DecodeError;
use crate::json::decoder::{
    decode_elems, decode_entries, field_named, json_decode, lemma_fields_default_len,
    lemma_first_field_named, lemma_first_named, type_key, value_key, JsonValue,
};
use crate::json::encoder::{
    ascii_of, decimal, elems_json, enum_mid, enum_open, field_default, field_entry,
    field_json, fields_json, json_false, json_null, json_of, json_true, quoted, signed_decimal,
};
use crate::json::escape::{escape_char, escape_chars, lemma_encode_ascii};
use crate::json::base64_text::{base64_char, base64_standard, lemma_base64_chars, lemma_base64_inverts};
use crate::json::decoder::{json_text_decode, serde_parse};
use crate::value::{
    elems_have_type, fields_have_types, first_variant, has_type, lemma_first_variant, FieldType,
    ValueModel, ValueType, VariantType,
};
use vstd::prelude::*;
use vstd::utf8::encode_utf8;

verus! {

/// The digits of an integer, with `-` before a negative one.
pub open spec fn signed_digits(x: int) -> Seq<char> {
    if x < 0 {
        seq!['-'] + digits((-x) as nat, 10)
    } else {
        digits(x as nat, 10)
    }
}

/// The JSON number `x`, as a parser reads it: as unsigned and as signed 64-bit, where it is
/// one.
pub open spec fn number_of(x: int) -> JsonValue {
    JsonValue::Number {
        as_u64: if 0 <= x <= u64::MAX {
            Some(x as u64)
        } else {
            None
        },
        as_i64: if i64::MIN <= x <= i64::MAX {
            Some(x as i64)
        } else {
            None
        },
    }
}

/// Whether `j` is a JSON string holding `s`.
pub open spec fn is_string(j: JsonValue, s: Seq<char>) -> bool {
    match j {
        JsonValue::String(t) => t@ == s,
        _ => false,
    }
}

/// Whether a struct field holding `x` of type `t` is left out of the encoding.
pub open spec fn omitted(x: ValueModel, t: ValueType) -> bool {
    field_json(x, t) == Ok::<Option<Seq<u8>>, crate::errors::EncodeError>(None)
}

/// Whether `j` is the JSON tree of the value `v` of type `t`: the tree whose text the encoder
/// writes for `v`.
pub open spec fn represents(j: JsonValue, v: ValueModel, t: ValueType) -> bool
    decreases v, 0nat,
{
    match (v, t) {
        (ValueModel::U8(x), ValueType::U8) => j == number_of(x as int),
        (ValueModel::U16(x), ValueType::U16) => j == number_of(x as int),
        (ValueModel::U32(x), ValueType::U32) => j == number_of(x as int),
        (ValueModel::I8(x), ValueType::I8) => j == number_of(x as int),
        (ValueModel::I16(x), ValueType::I16) => j == number_of(x as int),
        (ValueModel::I32(x), ValueType::I32) => j == number_of(x as int),
        (ValueModel::U64(x), ValueType::U64) => is_string(j, digits(x as nat, 10)),
        (ValueModel::U128(x), ValueType::U128) => is_string(j, digits(x as nat, 10)),
        (ValueModel::I64(x), ValueType::I64) => is_string(j, signed_digits(x as int)),
        (ValueModel::I128(x), ValueType::I128) => is_string(j, signed_digits(x as int)),
        (ValueModel::AccountID(a), ValueType::AccountID) => is_string(j, digits(a as nat, 10)),
        (ValueModel::Bool(b), ValueType::Bool) => j == JsonValue::Bool(b),
        (ValueModel::Str(s), ValueType::Str) => is_string(j, s),
        (ValueModel::Bytes(b), ValueType::Bytes) => is_string(j, base64_standard(b)),
        (ValueModel::Struct(xs), ValueType::Struct(fs)) => match j {
            JsonValue::Object(es) => entries_represent(es@, xs, fs@),
            _ => false,
        },
        (ValueModel::List(xs), ValueType::List(et)) => match j {
            JsonValue::Array(items) => items_represent(items@, xs, *et),
            _ => false,
        },
        (ValueModel::Enum(d, p), ValueType::Enum(vs)) => match first_variant(vs@, d) {
            None => false,
            Some(i) => {
                proof {
                    lemma_first_variant(vs@, d);
                }
                match (p, vs@[i].payload) {
                    (None, _) => is_string(j, vs@[i].name@),
                    (Some(b), Some(pt)) => match j {
                        JsonValue::Object(es) => {
                            &&& es@.len() == 2
                            &&& es@[0].0@ == type_key()
                            &&& is_string(es@[0].1, vs@[i].name@)
                            &&& es@[1].0@ == value_key()
                            &&& represents(es@[1].1, *b, pt)
                        },
                        _ => false,
                    },
                    _ => false,
                }
            },
        },
        (ValueModel::Nullable(p), ValueType::Nullable(it)) => match p {
            None => j == JsonValue::Null,
            Some(b) => represents(j, *b, *it),
        },
        _ => false,
    }
}

/// Whether the object entries `es` are those the encoder writes for the fields `xs` of types
/// `fs`: one per field that is not left out, in order, under the field's name.
pub open spec fn entries_represent(es: Seq<(String, JsonValue)>, xs: Seq<ValueModel>, fs: Seq<FieldType>) -> bool
    decreases xs, 2nat,
{
    if xs.len() != fs.len() {
        false
    } else if xs.len() == 0 {
        es.len() == 0
    } else if omitted(xs.last(), fs.last().ty) {
        entries_represent(es, xs.drop_last(), fs.drop_last())
    } else {
        &&& es.len() > 0
        &&& es.last().0@ == fs.last().name@
        &&& represents(es.last().1, xs.last(), fs.last().ty)
        &&& entries_represent(es.drop_last(), xs.drop_last(), fs.drop_last())
    }
}

/// Whether the array items are the trees of the elements `xs` of type `t`, in order.
pub open spec fn items_represent(items: Seq<JsonValue>, xs: Seq<ValueModel>, t: ValueType) -> bool
    decreases xs, 2nat,
{
    if xs.len() != items.len() {
        false
    } else if xs.len() == 0 {
        true
    } else {
        represents(items.last(), xs.last(), t) && items_represent(items.drop_last(), xs.drop_last(), t)
    }
}


/// The text of a JSON string holding `s`: quoted, with quotes, backslashes and control
/// characters escaped.
pub open spec fn string_text(s: Seq<char>) -> Seq<u8> {
    quoted(encode_utf8(escape_chars(s)))
}

/// The text of a JSON tree as the encoder writes it: no spaces, strings as [`string_text`],
/// numbers in decimal.
pub open spec fn json_text(j: JsonValue) -> Seq<u8>
    decreases j, 0nat,
{
    match j {
        JsonValue::Null => json_null(),
        JsonValue::Bool(b) => if b {
            json_true()
        } else {
            json_false()
        },
        JsonValue::Number { as_u64, as_i64 } => match (as_i64, as_u64) {
            (Some(x), _) => signed_decimal(x as int),
            (None, Some(y)) => decimal(y as nat),
            _ => Seq::empty(),
        },
        JsonValue::String(s) => string_text(s@),
        JsonValue::Array(items) => seq![0x5bu8] + items_text(items@) + seq![0x5du8],
        JsonValue::Object(es) => seq![0x7bu8] + entries_text(es@) + seq![0x7du8],
    }
}

/// The text of array items, separated by commas.
pub open spec fn items_text(items: Seq<JsonValue>) -> Seq<u8>
    decreases items, 1nat,
{
    if items.len() == 0 {
        Seq::empty()
    } else {
        items_text(items.drop_last()) + (if items.len() > 1 {
            seq![0x2cu8]
        } else {
            Seq::empty()
        }) + json_text(items.last())
    }
}

/// The text of object entries, each a key, a colon and a value, separated by commas.
pub open spec fn entries_text(es: Seq<(String, JsonValue)>) -> Seq<u8>
    decreases es, 1nat,
{
    if es.len() == 0 {
        Seq::empty()
    } else {
        entries_text(es.drop_last()) + (if es.len() > 1 {
            seq![0x2cu8]
        } else {
            Seq::empty()
        }) + string_text(es.last().0@) + seq![0x3au8] + json_text(es.last().1)
    }
}

/// Whether the encoder writes `s` unchanged inside quotes.
pub open spec fn plain(s: Seq<char>) -> bool {
    escape_chars(s) == s
}

/// Whether the names in `t` come back from JSON: the fields of each struct and the variants of
/// each enum have distinct names that need no escaping, and no nullable type directly holds
/// another nullable type (whose absent value would read back as the outer one absent).
pub open spec fn json_names_ok(t: ValueType) -> bool
    decreases t, 0nat,
{
    match t {
        ValueType::Struct(fs) => fields_ok(fs@),
        ValueType::List(et) => json_names_ok(*et),
        ValueType::Enum(vs) => variants_ok(vs@),
        ValueType::Nullable(it) => !(*it is Nullable) && json_names_ok(*it),
        _ => true,
    }
}

/// Whether each field has a plain name that no earlier field has, and a type whose names come
/// back from JSON.
pub open spec fn fields_ok(fs: Seq<FieldType>) -> bool
    decreases fs, 1nat,
{
    if fs.len() == 0 {
        true
    } else {
        &&& fields_ok(fs.drop_last())
        &&& plain(fs.last().name@)
        &&& json_names_ok(fs.last().ty)
        &&& forall|i: int| 0 <= i < fs.len() - 1 ==> fs[i].name@ != fs.last().name@
    }
}

/// Whether each variant has a plain name that no earlier variant has, and a payload type, if
/// any, whose names come back from JSON.
pub open spec fn variants_ok(vs: Seq<VariantType>) -> bool
    decreases vs, 1nat,
{
    if vs.len() == 0 {
        true
    } else {
        &&& variants_ok(vs.drop_last())
        &&& plain(vs.last().name@)
        &&& match vs.last().payload {
            Some(pt) => json_names_ok(pt),
            None => true,
        }
        &&& forall|i: int| 0 <= i < vs.len() - 1 ==> vs[i].name@ != vs.last().name@
    }
}

proof fn lemma_fields_ok_index(fs: Seq<FieldType>)
    requires
        fields_ok(fs),
    ensures
        forall|i: int| 0 <= i < fs.len() ==> plain(#[trigger] fs[i].name@) && json_names_ok(fs[i].ty),
        forall|i: int, k: int| 0 <= i < k < fs.len() ==> fs[i].name@ != fs[k].name@,
    decreases fs.len(),
{
    if fs.len() > 0 {
        let f = fs.drop_last();
        lemma_fields_ok_index(f);
        assert forall|i: int| 0 <= i < fs.len() implies plain(#[trigger] fs[i].name@) && json_names_ok(fs[i].ty) by {
            if i < fs.len() - 1 {
                assert(fs[i] == f[i]);
            }
        }
        assert forall|i: int, k: int| 0 <= i < k < fs.len() implies fs[i].name@ != fs[k].name@ by {
            if k < fs.len() - 1 {
                assert(fs[i] == f[i] && fs[k] == f[k]);
            }
        }
    }
}

proof fn lemma_variants_ok_index(vs: Seq<VariantType>)
    requires
        variants_ok(vs),
    ensures
        forall|i: int| 0 <= i < vs.len() ==> plain(#[trigger] vs[i].name@) && match vs[i].payload {
            Some(pt) => json_names_ok(pt),
            None => true,
        },
        forall|i: int, k: int| 0 <= i < k < vs.len() ==> vs[i].name@ != vs[k].name@,
    decreases vs.len(),
{
    if vs.len() > 0 {
        let f = vs.drop_last();
        lemma_variants_ok_index(f);
        assert forall|i: int| 0 <= i < vs.len() implies plain(#[trigger] vs[i].name@) && match vs[i].payload {
            Some(pt) => json_names_ok(pt),
            None => true,
        } by {
            if i < vs.len() - 1 {
                assert(vs[i] == f[i]);
            }
        }
        assert forall|i: int, k: int| 0 <= i < k < vs.len() implies vs[i].name@ != vs[k].name@ by {
            if k < vs.len() - 1 {
                assert(vs[i] == f[i] && vs[k] == f[k]);
            }
        }
    }
}

pub(crate) proof fn lemma_fields_have_types_index(xs: Seq<ValueModel>, fs: Seq<FieldType>)
    requires
        fields_have_types(xs, fs),
    ensures
        xs.len() == fs.len(),
        forall|i: int| 0 <= i < xs.len() ==> has_type(#[trigger] xs[i], fs[i].ty),
    decreases fs.len(),
{
    if fs.len() > 0 {
        lemma_fields_have_types_index(xs.drop_first(), fs.drop_first());
        assert forall|i: int| 0 <= i < xs.len() implies has_type(#[trigger] xs[i], fs[i].ty) by {
            if i > 0 {
                assert(xs[i] == xs.drop_first()[i - 1] && fs[i] == fs.drop_first()[i - 1]);
            }
        }
    }
}

pub(crate) proof fn lemma_elems_have_type_index(xs: Seq<ValueModel>, t: ValueType)
    requires
        elems_have_type(xs, t),
    ensures
        forall|i: int| 0 <= i < xs.len() ==> has_type(#[trigger] xs[i], t),
    decreases xs.len(),
{
    if xs.len() > 0 {
        lemma_elems_have_type_index(xs.drop_first(), t);
        assert forall|i: int| 0 <= i < xs.len() implies has_type(#[trigger] xs[i], t) by {
            if i > 0 {
                assert(xs[i] == xs.drop_first()[i - 1]);
            }
        }
    }
}

proof fn lemma_fields_default_index(fs: Seq<FieldType>)
    ensures
        fields_default(fs).len() == fs.len(),
        forall|i: int| 0 <= i < fs.len() ==> #[trigger] fields_default(fs)[i] == default_model(fs[i].ty),
    decreases fs.len(),
{
    lemma_fields_default_len(fs);
    if fs.len() > 0 {
        lemma_fields_default_index(fs.drop_last());
        assert forall|i: int| 0 <= i < fs.len() implies #[trigger] fields_default(fs)[i] == default_model(fs[i].ty) by {
            if i < fs.len() - 1 {
                assert(fs[i] == fs.drop_last()[i]);
            }
        }
    }
}

proof fn lemma_digit_char_val(d: nat)
    requires
        d < 10,
    ensures
        dec_val(digit_char(d)) == Some(d as int),
{
    let c = digit_char(d);
    assert(c as int == 48 + d);
}

/// The decimal digits of a number read back as that number, and do not start with a sign.
pub proof fn lemma_digits_value(x: nat)
    ensures
        dec_digits_val(digits(x, 10)) == Some(x as int),
        digits(x, 10).len() > 0,
        dec_val(digits(x, 10)[0]) is Some,
    decreases x,
{
    if x >= 10 {
        lemma_digits_value(x / 10);
        let ds = digits(x, 10);
        assert(ds.drop_last() == digits(x / 10, 10));
        assert(ds[0] == digits(x / 10, 10)[0]);
        lemma_digit_char_val((x % 10) as nat);
        assert(ds.last() == digit_char((x % 10) as nat));
        assert(x == (x / 10) * 10 + x % 10) by {
            vstd::arithmetic::div_mod::lemma_fundamental_div_mod(x as int, 10);
        }
        assert(dec_digits_val(ds) == Some(((x / 10) * 10 + x % 10) as int));
    } else {
        lemma_digit_char_val(x);
        let ds = digits(x, 10);
        assert(ds.drop_last() =~= Seq::<char>::empty());
        assert(dec_digits_val(ds.drop_last()) == Some(0int));
        assert(ds.last() == digit_char(x));
    }
}

/// Reading the digit text of a number back with `from_str` gives the number.
pub proof fn lemma_parse_signed_digits(x: int, min: int, max: int)
    requires
        min <= x <= max,
        x < 0 ==> min < 0,
    ensures
        parse_int(signed_digits(x), min, max) == Some(x),
{
    if x < 0 {
        lemma_digits_value((-x) as nat);
        let s = signed_digits(x);
        assert(s.drop_first() =~= digits((-x) as nat, 10));
    } else {
        lemma_digits_value(x as nat);
    }
}

/// A field left out of the encoding holds its type's default.
proof fn lemma_omitted_default(x: ValueModel, t: ValueType)
    requires
        has_type(x, t),
        omitted(x, t),
    ensures
        x == default_model(t),
    decreases x, 0nat,
{
    match (x, t) {
        (ValueModel::Struct(xs), ValueType::Struct(fs)) => {
            lemma_fields_have_types_index(xs, fs@);
            lemma_unwritten_fields_default(xs, fs@);
        },
        (ValueModel::Enum(d, p), ValueType::Enum(vs)) => {
            assert(field_default(x));
        },
        (ValueModel::Nullable(p), ValueType::Nullable(it)) => {
            assert(field_default(x));
        },
        (ValueModel::List(xs), ValueType::List(et)) => {
            assert(field_default(x));
            assert(xs =~= Seq::<ValueModel>::empty());
        },
        (ValueModel::Str(s), ValueType::Str) => {
            assert(s =~= Seq::<char>::empty());
        },
        (ValueModel::Bytes(b), ValueType::Bytes) => {
            assert(b =~= Seq::<u8>::empty());
        },
        _ => {},
    }
}

/// Fields none of which is written hold their defaults.
proof fn lemma_unwritten_fields_default(xs: Seq<ValueModel>, fs: Seq<FieldType>)
    requires
        xs.len() == fs.len(),
        forall|i: int| 0 <= i < xs.len() ==> has_type(#[trigger] xs[i], fs[i].ty),
        fields_json(xs, fs) matches Ok((_, n)) && n == 0,
    ensures
        xs == fields_default(fs),
    decreases xs, 2nat,
{
    lemma_fields_default_len(fs);
    if xs.len() > 0 {
        let (a, b) = (xs.drop_last(), fs.drop_last());
        assert forall|i: int| 0 <= i < a.len() implies has_type(#[trigger] a[i], b[i].ty) by {
            assert(a[i] == xs[i] && b[i] == fs[i]);
        }
        assert(has_type(xs[xs.len() - 1], fs[fs.len() - 1].ty));
        lemma_unwritten_fields_default(a, b);
        lemma_omitted_default(xs.last(), fs.last().ty);
        assert(xs =~= fields_default(fs));
    }
}

/// Decoding entries with one more at the end applies the last one to what the others decode to.
proof fn lemma_decode_entries_push(es: Seq<(String, JsonValue)>, fs: Seq<FieldType>, acc: Seq<ValueModel>)
    requires
        es.len() > 0,
    ensures
        decode_entries(es, fs, acc) == match decode_entries(es.drop_last(), fs, acc) {
            Some(Ok(a)) => decode_entries(seq![es.last()], fs, a),
            r => r,
        },
    decreases es.len(),
{
    if es.len() > 1 {
        let e0 = es[0];
        assert(es.drop_last()[0] == e0);
        match field_named(fs, e0.0@) {
            None => {},
            Some(i) => {
                crate::json::decoder::lemma_field_named(fs, e0.0@);
                match json_decode(e0.1, fs[i].ty) {
                    Some(Ok(x)) => {
                        lemma_decode_entries_push(es.drop_first(), fs, acc.update(i, x));
                        assert(es.drop_first().drop_last() =~= es.drop_last().drop_first());
                        assert(es.drop_first().last() == es.last());
                    },
                    _ => {},
                }
            },
        }
    } else {
        assert(es =~= seq![es.last()]);
        assert(es.drop_last() =~= Seq::<(String, JsonValue)>::empty());
    }
}

/// The tree of a value of a type other than a nullable one is not `null`.
proof fn lemma_not_null(j: JsonValue, v: ValueModel, t: ValueType)
    requires
        represents(j, v, t),
        !(t is Nullable),
    ensures
        j != JsonValue::Null,
{
    match (v, t) {
        (ValueModel::Enum(d, p), ValueType::Enum(vs)) => {
            lemma_first_variant(vs@, d);
        },
        _ => {},
    }
}

/// The JSON tree of a value decodes to that value.
pub proof fn lemma_decode_represented(j: JsonValue, v: ValueModel, t: ValueType)
    requires
        represents(j, v, t),
        has_type(v, t),
        json_names_ok(t),
    ensures
        json_decode(j, t) == Some(Ok::<ValueModel, DecodeError>(v)),
    decreases v, 0nat, 0int,
{
    match (v, t) {
        (ValueModel::U64(x), ValueType::U64) => {
            lemma_parse_signed_digits(x as int, 0, u64::MAX as int);
        },
        (ValueModel::U128(x), ValueType::U128) => {
            lemma_parse_signed_digits(x as int, 0, u128::MAX as int);
        },
        (ValueModel::AccountID(x), ValueType::AccountID) => {
            lemma_parse_signed_digits(x as int, 0, u128::MAX as int);
        },
        (ValueModel::I64(x), ValueType::I64) => {
            lemma_parse_signed_digits(x as int, i64::MIN as int, i64::MAX as int);
        },
        (ValueModel::I128(x), ValueType::I128) => {
            lemma_parse_signed_digits(x as int, i128::MIN as int, i128::MAX as int);
        },
        (ValueModel::Bytes(b), ValueType::Bytes) => {
            lemma_base64_inverts(b);
        },
        (ValueModel::Struct(xs), ValueType::Struct(fs)) => match j {
            JsonValue::Object(es) => {
                lemma_fields_have_types_index(xs, fs@);
                lemma_fields_ok_index(fs@);
                lemma_fields_default_index(fs@);
                assert(xs.take(xs.len() as int) =~= xs);
                assert(fs@.take(fs@.len() as int) =~= fs@);
                lemma_decode_fields(es@, xs, fs@, xs.len() as int);
                assert(xs.take(xs.len() as int) + fields_default(fs@).skip(xs.len() as int) =~= xs);
            },
            _ => {},
        },
        (ValueModel::List(xs), ValueType::List(et)) => match j {
            JsonValue::Array(items) => {
                lemma_elems_have_type_index(xs, *et);
                lemma_decode_items(items@, xs, *et);
            },
            _ => {},
        },
        (ValueModel::Enum(d, p), ValueType::Enum(vs)) => {
            lemma_first_variant(vs@, d);
            lemma_variants_ok_index(vs@);
            let i = first_variant(vs@, d)->Some_0;
            lemma_first_named(vs@, vs@[i].name@, i);
            match (p, vs@[i].payload) {
                (Some(b), Some(pt)) => match j {
                    JsonValue::Object(es) => {
                        lemma_decode_represented(es@[1].1, *b, pt);
                        assert(type_key() != value_key()) by {
                            assert(type_key().len() != value_key().len());
                        }
                        assert(es@.drop_first()[0] == es@[1]);
                        assert(crate::json::decoder::obj_get(es@, type_key()) == Some(es@[0].1));
                        assert(crate::json::decoder::obj_get(es@.drop_first(), value_key()) == Some(es@[1].1));
                        assert(crate::json::decoder::obj_get(es@, value_key()) == Some(es@[1].1));
                        assert(crate::json::decoder::variant_named(vs@, vs@[i].name@) == Some(i));
                        assert(vs@[i].discriminant == d);
                        assert(crate::json::decoder::decode_variant(vs@, d, es@[1].1) == Some(Ok::<ValueModel, DecodeError>(v)));
                    },
                    _ => {},
                },
                (None, _) => {
                    assert(crate::json::decoder::variant_named(vs@, vs@[i].name@) == Some(i));
                    assert(vs@[i].discriminant == d);
                    assert(crate::json::decoder::decode_variant(vs@, d, JsonValue::Null) == Some(Ok::<ValueModel, DecodeError>(v)));
                },
                _ => {},
            }
        },
        (ValueModel::Nullable(p), ValueType::Nullable(it)) => match p {
            None => {},
            Some(b) => {
                lemma_decode_represented(j, *b, *it);
                lemma_not_null(j, *b, *it);
            },
        },
        _ => {},
    }
}

/// The entries written for the first `k` fields decode, from the defaults, to those fields
/// followed by the defaults of the rest.
proof fn lemma_decode_fields(es: Seq<(String, JsonValue)>, xs: Seq<ValueModel>, fs: Seq<FieldType>, k: int)
    requires
        xs.len() == fs.len(),
        0 <= k <= xs.len(),
        forall|i: int| 0 <= i < xs.len() ==> has_type(#[trigger] xs[i], fs[i].ty),
        forall|i: int| 0 <= i < fs.len() ==> plain(#[trigger] fs[i].name@) && json_names_ok(fs[i].ty),
        forall|i: int, m: int| 0 <= i < m < fs.len() ==> fs[i].name@ != fs[m].name@,
        entries_represent(es, xs.take(k), fs.take(k)),
    ensures
        decode_entries(es, fs, fields_default(fs)) == Some(
            Ok::<Seq<ValueModel>, DecodeError>(xs.take(k) + fields_default(fs).skip(k)),
        ),
    decreases xs, 1nat, k,
{
    lemma_fields_default_index(fs);
    let dflt = fields_default(fs);
    if k == 0 {
        assert(xs.take(0) =~= Seq::<ValueModel>::empty());
        assert(fs.take(0) =~= Seq::<FieldType>::empty());
        assert(xs.take(0) + dflt.skip(0) =~= dflt);
    } else {
        let (xk, fk) = (xs.take(k), fs.take(k));
        assert(xk.drop_last() =~= xs.take(k - 1));
        assert(fk.drop_last() =~= fs.take(k - 1));
        assert(xk.last() == xs[k - 1]);
        assert(fk.last() == fs[k - 1]);
        assert(has_type(xs[k - 1], fs[k - 1].ty));
        if omitted(xs[k - 1], fs[k - 1].ty) {
            lemma_decode_fields(es, xs, fs, k - 1);
            lemma_omitted_default(xs[k - 1], fs[k - 1].ty);
            assert(dflt[k - 1] == default_model(fs[k - 1].ty));
            assert(xs.take(k) + dflt.skip(k) =~= xs.take(k - 1) + dflt.skip(k - 1));
        } else {
            let e = es.last();
            lemma_decode_fields(es.drop_last(), xs, fs, k - 1);
            lemma_decode_entries_push(es, fs, dflt);
            assert(plain(fs[k - 1].name@) && json_names_ok(fs[k - 1].ty));
            lemma_first_field_named(fs, fs[k - 1].name@, k - 1);
            lemma_decode_represented(e.1, xs[k - 1], fs[k - 1].ty);
            let a = xs.take(k - 1) + dflt.skip(k - 1);
            assert(seq![e][0] == e);
            assert(seq![e].drop_first() =~= Seq::<(String, JsonValue)>::empty());
            assert(a.update(k - 1, xs[k - 1]) =~= xs.take(k) + dflt.skip(k));
            assert(decode_entries(es.drop_last(), fs, dflt) == Some(Ok::<Seq<ValueModel>, DecodeError>(a)));
            assert(field_named(fs, e.0@) == Some(k - 1));
            assert(json_decode(e.1, fs[k - 1].ty) == Some(Ok::<ValueModel, DecodeError>(xs[k - 1])));
            let empty = Seq::<(String, JsonValue)>::empty();
            assert(seq![e].drop_first() == empty);
            assert(decode_entries(empty, fs, a.update(k - 1, xs[k - 1])) == Some(Ok::<Seq<ValueModel>, DecodeError>(a.update(k - 1, xs[k - 1]))));
            assert(decode_entries(seq![e], fs, a) == Some(Ok::<Seq<ValueModel>, DecodeError>(a.update(k - 1, xs[k - 1]))));
        }
    }
}

/// The trees of the elements of a list decode to the elements.
proof fn lemma_decode_items(items: Seq<JsonValue>, xs: Seq<ValueModel>, t: ValueType)
    requires
        items_represent(items, xs, t),
        forall|i: int| 0 <= i < xs.len() ==> has_type(#[trigger] xs[i], t),
        json_names_ok(t),
    ensures
        decode_elems(items, t) == Some(Ok::<Seq<ValueModel>, DecodeError>(xs)),
    decreases xs, 1nat, 0int,
{
    if xs.len() > 0 {
        let a = xs.drop_last();
        assert forall|i: int| 0 <= i < a.len() implies has_type(#[trigger] a[i], t) by {
            assert(a[i] == xs[i]);
        }
        assert(has_type(xs[xs.len() - 1], t));
        lemma_decode_items(items.drop_last(), a, t);
        lemma_decode_represented(items.last(), xs.last(), t);
        assert(a.push(xs.last()) =~= xs);
    } else {
        assert(xs =~= Seq::<ValueModel>::empty());
    }
}

/// Whether every character is printable ASCII other than a quote or a backslash: characters
/// the encoder writes as they are, one byte each.
pub open spec fn printable(s: Seq<char>) -> bool {
    forall|i: int| 0 <= i < s.len() ==> 0x20 <= (#[trigger] s[i] as u32) <= 0x7e && s[i] != '"' && s[i] != '\\'
}

proof fn lemma_char_byte(c: char)
    requires
        (c as u32) <= 0x7e,
    ensures
        c as u8 == (c as u32) as u8,
{
    let x = c as u32;
    assert(x as int == c as int);
    assert((x as u8) as int == x as int);
    assert((c as u8) as int == c as int);
}

/// Printable text is written unescaped, one byte per character.
pub proof fn lemma_printable_text(s: Seq<char>)
    requires
        printable(s),
    ensures
        escape_chars(s) == s,
        encode_utf8(s) == ascii_of(s),
    decreases s.len(),
{
    lemma_encode_ascii(s);
    assert forall|i: int| 0 <= i < s.len() implies #[trigger] encode_utf8(s)[i] == ascii_of(s)[i] by {
        let c = s[i];
        assert(0x20 <= c as u32 <= 0x7e);
        lemma_char_byte(c);
        assert(encode_utf8(s)[i] == (c as u32) as u8);
        assert(ascii_of(s)[i] == c as u8);
    }
    assert(encode_utf8(s) =~= ascii_of(s));
    if s.len() > 0 {
        let r = s.drop_first();
        assert forall|i: int| 0 <= i < r.len() implies 0x20 <= (#[trigger] r[i] as u32) <= 0x7e && r[i] != '"' && r[i]
            != '\\' by {
            assert(r[i] == s[i + 1]);
        }
        lemma_printable_text(r);
        assert(s[0] as u32 >= 0x20);
        assert(escape_char(s[0]) == seq![s[0]]);
        assert(escape_chars(s) =~= s);
    }
}

/// The digits of a number are printable.
proof fn lemma_digits_printable(x: nat)
    ensures
        printable(digits(x, 10)),
    decreases x,
{
    let ds = digits(x, 10);
    if x >= 10 {
        lemma_digits_printable(x / 10);
        let c = digit_char((x % 10) as nat);
        assert(c as int == 48 + x % 10);
        assert forall|i: int| 0 <= i < ds.len() implies 0x20 <= (#[trigger] ds[i] as u32) <= 0x7e && ds[i] != '"' && ds[i]
            != '\\' by {
            if i < ds.len() - 1 {
                assert(ds[i] == digits(x / 10, 10)[i]);
            } else {
                assert(ds[i] == c);
            }
        }
    } else {
        let c = digit_char(x);
        assert(c as int == 48 + x);
        assert(ds == seq![c]);
    }
}

/// The digit text of an integer is printable, and written as its decimal form.
proof fn lemma_signed_digits_text(x: int)
    ensures
        string_text(signed_digits(x)) == quoted(signed_decimal(x)),
{
    if x < 0 {
        lemma_digits_printable((-x) as nat);
        let ds = digits((-x) as nat, 10);
        let s = signed_digits(x);
        assert forall|i: int| 0 <= i < s.len() implies 0x20 <= (#[trigger] s[i] as u32) <= 0x7e && s[i] != '"' && s[i]
            != '\\' by {
            if i > 0 {
                assert(s[i] == ds[i - 1]);
            }
        }
        lemma_printable_text(s);
        assert(ascii_of(s) =~= seq![0x2du8] + ascii_of(ds));
    } else {
        lemma_digits_printable(x as nat);
        lemma_printable_text(digits(x as nat, 10));
    }
}

/// Base64 text is written unescaped.
proof fn lemma_base64_plain(b: Seq<u8>)
    ensures
        plain(base64_standard(b)),
{
    lemma_base64_chars(b);
    let s = base64_standard(b);
    assert forall|i: int| 0 <= i < s.len() implies 0x20 <= (#[trigger] s[i] as u32) <= 0x7e && s[i] != '"' && s[i]
        != '\\' by {
        assert(base64_char(s[i]));
    }
    lemma_printable_text(s);
}

/// A struct field that is written is written as the text of its value.
proof fn lemma_field_json_written(x: ValueModel, t: ValueType, text: Seq<u8>)
    requires
        !omitted(x, t),
        json_of(x, t) == Ok::<Seq<u8>, crate::errors::EncodeError>(text),
    ensures
        field_json(x, t) == Ok::<Option<Seq<u8>>, crate::errors::EncodeError>(Some(text)),
{
    match (x, t) {
        (ValueModel::Struct(xs), ValueType::Struct(fs)) => {},
        _ => {},
    }
}

/// The encoder writes exactly the text of the JSON tree of a value.
pub proof fn lemma_text_represented(j: JsonValue, v: ValueModel, t: ValueType)
    requires
        represents(j, v, t),
        json_names_ok(t),
    ensures
        json_of(v, t) == Ok::<Seq<u8>, crate::errors::EncodeError>(json_text(j)),
    decreases v, 0nat, 0int,
{
    match (v, t) {
        (ValueModel::U64(x), ValueType::U64) => {
            lemma_signed_digits_text(x as int);
        },
        (ValueModel::U128(x), ValueType::U128) => {
            lemma_signed_digits_text(x as int);
        },
        (ValueModel::AccountID(x), ValueType::AccountID) => {
            lemma_signed_digits_text(x as int);
        },
        (ValueModel::I64(x), ValueType::I64) => {
            lemma_signed_digits_text(x as int);
        },
        (ValueModel::I128(x), ValueType::I128) => {
            lemma_signed_digits_text(x as int);
        },
        (ValueModel::Bytes(b), ValueType::Bytes) => {
            lemma_base64_plain(b);
        },
        (ValueModel::Struct(xs), ValueType::Struct(fs)) => match j {
            JsonValue::Object(es) => {
                assert(fields_ok(fs@));
                lemma_fields_ok_index(fs@);
                assert forall|i: int| 0 <= i < fs@.len() implies #[trigger] field_ok_at(fs@, i) by {
                    let n = fs@[i].name@;
                    assert(plain(n) && json_names_ok(fs@[i].ty));
                }
                lemma_fields_text(es@, xs, fs@);
            },
            _ => {},
        },
        (ValueModel::List(xs), ValueType::List(et)) => match j {
            JsonValue::Array(items) => {
                lemma_items_text(items@, xs, *et);
            },
            _ => {},
        },
        (ValueModel::Enum(d, p), ValueType::Enum(vs)) => {
            lemma_first_variant(vs@, d);
            lemma_variants_ok_index(vs@);
            let i = first_variant(vs@, d)->Some_0;
            let name = vs@[i].name@;
            assert(plain(name));
            match (p, vs@[i].payload) {
                (Some(b), Some(pt)) => match j {
                    JsonValue::Object(es) => {
                        lemma_text_represented(es@[1].1, *b, pt);
                        lemma_enum_object_text(es@, name);
                    },
                    _ => {},
                },
                _ => {},
            }
        },
        (ValueModel::Nullable(p), ValueType::Nullable(it)) => match p {
            None => {},
            Some(b) => {
                lemma_text_represented(j, *b, *it);
            },
        },
        _ => {},
    }
}


/// The text of the object holding a variant's name under `type` and its payload under `value`.
proof fn lemma_enum_object_text(es: Seq<(String, JsonValue)>, name: Seq<char>)
    requires
        es.len() == 2,
        es[0].0@ == type_key(),
        is_string(es[0].1, name),
        es[1].0@ == value_key(),
        plain(name),
    ensures
        seq![0x7bu8] + entries_text(es) + seq![0x7du8] == enum_open() + encode_utf8(name) + enum_mid()
            + json_text(es[1].1) + seq![0x7du8],
{
    lemma_key_texts();
    let first = es.drop_last();
    assert(first.len() == 1);
    assert(first.last() == es[0]);
    assert(first.drop_last() =~= Seq::<(String, JsonValue)>::empty());
    assert(entries_text(first.drop_last()) == Seq::<u8>::empty());
    assert(json_text(es[0].1) == string_text(name));
    assert(string_text(name) == quoted(encode_utf8(name)));
    let t1 = string_text(type_key()) + seq![0x3au8] + string_text(name);
    assert(entries_text(first) =~= t1);
    assert(es.last() == es[1]);
    let t2 = t1 + seq![0x2cu8] + string_text(value_key()) + seq![0x3au8] + json_text(es[1].1);
    assert(entries_text(es) == t2);
    assert(seq![0x7bu8] + t2 + seq![0x7du8] =~= enum_open() + encode_utf8(name) + enum_mid() + json_text(es[1].1)
        + seq![0x7du8]);
}

/// The texts of the keys `type` and `value`.
proof fn lemma_key_texts()
    ensures
        string_text(type_key()) == seq![0x22u8, 0x74, 0x79, 0x70, 0x65, 0x22],
        string_text(value_key()) == seq![0x22u8, 0x76, 0x61, 0x6c, 0x75, 0x65, 0x22],
{
    let (a, b) = (type_key(), value_key());
    assert(printable(a));
    assert(printable(b));
    lemma_printable_text(a);
    lemma_printable_text(b);
    assert(ascii_of(a) =~= seq![0x74u8, 0x79, 0x70, 0x65]);
    assert(ascii_of(b) =~= seq![0x76u8, 0x61, 0x6c, 0x75, 0x65]);
}

/// Whether field `i` has a plain name and a type whose names come back from JSON.
pub open spec fn field_ok_at(fs: Seq<FieldType>, i: int) -> bool {
    plain(fs[i].name@) && json_names_ok(fs[i].ty)
}

/// The fields of a struct are written as the text of their entries.
proof fn lemma_fields_text(es: Seq<(String, JsonValue)>, xs: Seq<ValueModel>, fs: Seq<FieldType>)
    requires
        entries_represent(es, xs, fs),
        forall|i: int| 0 <= i < fs.len() ==> #[trigger] field_ok_at(fs, i),
    ensures
        fields_json(xs, fs) == Ok::<(Seq<u8>, nat), crate::errors::EncodeError>((entries_text(es), es.len())),
    decreases xs, 1nat, 0int,
{
    if xs.len() > 0 {
        let (a, b) = (xs.drop_last(), fs.drop_last());
        assert forall|i: int| 0 <= i < b.len() implies #[trigger] field_ok_at(b, i) by {
            assert(b[i] == fs[i]);
            assert(field_ok_at(fs, i));
        }
        let f = fs.last();
        assert(field_ok_at(fs, fs.len() - 1));
        assert(plain(f.name@) && json_names_ok(f.ty));
        if omitted(xs.last(), f.ty) {
            lemma_fields_text(es, a, b);
        } else {
            let e = es.last();
            lemma_fields_text(es.drop_last(), a, b);
            lemma_text_represented(e.1, xs.last(), f.ty);
            lemma_field_json_written(xs.last(), f.ty, json_text(e.1));
            assert(string_text(e.0@) == quoted(encode_utf8(f.name@)));
            assert(field_entry(f, json_text(e.1)) == string_text(e.0@) + seq![0x3au8] + json_text(e.1));
            let body = entries_text(es.drop_last());
            let n = es.drop_last().len();
            let comma = if n > 0 {
                seq![0x2cu8]
            } else {
                Seq::<u8>::empty()
            };
            assert(es.len() > 1 <==> n > 0);
            assert(entries_text(es) =~= body + comma + field_entry(f, json_text(e.1)));
            assert(fields_json(xs, fs) == Ok::<(Seq<u8>, nat), crate::errors::EncodeError>((body + comma + field_entry(f, json_text(e.1)), n + 1)));
        }
    }
}

/// The elements of a list are written as the text of their items.
proof fn lemma_items_text(items: Seq<JsonValue>, xs: Seq<ValueModel>, t: ValueType)
    requires
        items_represent(items, xs, t),
        json_names_ok(t),
    ensures
        elems_json(xs, t) == Ok::<Seq<u8>, crate::errors::EncodeError>(items_text(items)),
    decreases xs, 1nat, 0int,
{
    if xs.len() > 0 {
        lemma_items_text(items.drop_last(), xs.drop_last(), t);
        lemma_text_represented(items.last(), xs.last(), t);
    }
}

/// Decoding gives back what encoding wrote. For a value `v` of type `t` and its JSON tree `j`,
/// the encoder writes exactly the text of `j`, and the decoder makes `v` of `j`; where
/// `serde_json` reads that text back as `j`, decoding the text gives `v`. The names of `t` must
/// come back from JSON (distinct, unescaped, and no nullable directly in a nullable).
pub proof fn lemma_json_roundtrip(j: JsonValue, v: ValueModel, t: ValueType)
    requires
        represents(j, v, t),
        has_type(v, t),
        json_names_ok(t),
    ensures
        json_of(v, t) == Ok::<Seq<u8>, crate::errors::EncodeError>(json_text(j)),
        json_decode(j, t) == Some(Ok::<ValueModel, DecodeError>(v)),
        forall|s: Seq<char>| encode_utf8(s) == json_text(j) && serde_parse(s) == Some(j)
            ==> #[trigger] json_text_decode(s, t) == Some(Ok::<ValueModel, DecodeError>(v)),
{
    lemma_text_represented(j, v, t);
    lemma_decode_represented(j, v, t);
}

} // verus!
