//! What the tokenizer reads back of what the escaper writes.
use crate::json::escape::{escape_char, escape_chars, hex_digit};
use crate::json::encoder::{field_json, json_of};
use crate::json::tokenizer::{
    hex_digits_val, hex_val, is_ws, lemma_scalar_char, lex_next, lex_string, parse_hex, simple_escape, skip_ws, TokenErrorModel, TokenModel,
};
use crate::value::{ValueModel, ValueType};
use vstd::prelude::*;

verus! {

proof fn lemma_hex_digit_val(n: u32)
    requires
        n < 16,
    ensures
        hex_val(hex_digit(n)) == Some(n),
{
}

/// Reading the escaped form of one character puts that character in the string being read.
proof fn lemma_lex_escape_char(s: Seq<char>, p: int, acc: Seq<char>, c: char)
    requires
        0 <= p,
        p + escape_char(c).len() < s.len(),
        s.subrange(p, p + escape_char(c).len()) == escape_char(c),
    ensures
        lex_string(s, p, acc) == lex_string(s, p + escape_char(c).len(), acc.push(c)),
{
    let e = escape_char(c);
    assert(forall|i: int| 0 <= i < e.len() ==> s[p + i] == #[trigger] e[i]) by {
        assert forall|i: int| 0 <= i < e.len() implies s[p + i] == #[trigger] e[i] by {
            assert(s.subrange(p, p + e.len())[i] == s[p + i]);
        }
    }
    assert(s[p] == e[0]);
    if c == '"' || c == '\\' || c == '\u{8}' || c == '\u{c}' || c == '\n' || c == '\r' || c == '\t' {
        assert(s[p + 1] == e[1]);
        assert(simple_escape(e[1]) == Some(c));
    } else if (c as u32) <= 0x1f {
        let code = c as u32;
        let hi = code / 16;
        let lo = code % 16;
        assert(s[p + 1] == 'u');
        let digits = s.subrange(p + 2, p + 6);
        assert(digits =~= seq!['0', '0', hex_digit(hi), hex_digit(lo)]);
        lemma_hex_digit_val(hi);
        lemma_hex_digit_val(lo);
        assert(digits.drop_last().drop_last().drop_last() =~= seq!['0']);
        assert(digits.drop_last().drop_last().drop_last().drop_last() =~= Seq::<char>::empty());
        assert(hex_digits_val(digits) == Some((hi * 16 + lo) as int)) by {
            reveal_with_fuel(hex_digits_val, 5);
        }
        assert(hi * 16 + lo == code);
        assert(parse_hex(digits) == Some(code as int));
        lemma_scalar_char(c, code);
    } else {
        assert(e =~= seq![c]);
    }
}

/// Reading the escaped form of a string, up to the closing quote, gives back the string.
pub proof fn lemma_lex_escaped(s: Seq<char>, p: int, acc: Seq<char>, text: Seq<char>)
    requires
        0 <= p,
        p + escape_chars(text).len() < s.len(),
        s.subrange(p, p + escape_chars(text).len()) == escape_chars(text),
        s[p + escape_chars(text).len()] == '"',
    ensures
        lex_string(s, p, acc) == (
        Ok::<TokenModel, crate::json::tokenizer::TokenErrorModel>(TokenModel::String(acc + text)),
        p + escape_chars(text).len() + 1int,
        ),
    decreases text.len(),
{
    if text.len() == 0 {
        assert(acc + text =~= acc);
    } else {
        let c = text[0];
        let rest = text.drop_first();
        let k = escape_char(c).len();
        assert(escape_chars(text) == escape_char(c) + escape_chars(rest));
        assert(s.subrange(p, p + k) =~= escape_char(c)) by {
            assert(s.subrange(p, p + k) =~= s.subrange(p, p + escape_chars(text).len()).subrange(0, k as int));
        }
        lemma_lex_escape_char(s, p, acc, c);
        assert(s.subrange(p + k, p + k + escape_chars(rest).len()) =~= escape_chars(rest)) by {
            assert(s.subrange(p + k, p + k + escape_chars(rest).len()) =~= s.subrange(p, p + escape_chars(text).len()).subrange(
                k as int,
                escape_chars(text).len() as int,
            ));
        }
        lemma_lex_escaped(s, p + k, acc.push(c), rest);
        assert(acc.push(c) + rest =~= acc + text);
    }
}

/// The tokenizer reads a string literal written as the escaper writes it (a quote, the
/// escaped text, a quote) back as a string token holding the text, and moves past it.
pub proof fn lemma_read_back_escaped_string(text: Seq<char>, rest: Seq<char>)
    ensures
        ({
            let input = seq!['"'] + escape_chars(text) + seq!['"'] + rest;
            lex_next(input, 0) == (
            Some(Ok::<TokenModel, crate::json::tokenizer::TokenErrorModel>(TokenModel::String(text))),
            escape_chars(text).len() + 2int,
            )
        }),
{
    let input = seq!['"'] + escape_chars(text) + seq!['"'] + rest;
    let n: int = escape_chars(text).len() as int;
    assert(input[0] == '"');
    assert(skip_ws(input, 0) == 0);
    assert(input.subrange(1, 1 + n) =~= escape_chars(text));
    assert(input[1 + n] == '"');
    lemma_lex_escaped(input, 1, Seq::empty(), text);
    assert(Seq::<char>::empty() + text =~= text);
}

/// The white space between tokens is Unicode's, as `char::is_whitespace` has it: tab, line
/// feed, vertical tab, form feed, carriage return, space, next line, no-break space, ogham
/// space mark, the spaces from en quad to hair space, line and paragraph separators, narrow
/// no-break space, medium mathematical space and ideographic space; nothing else.
pub proof fn lemma_white_space(c: char)
    ensures
        is_ws(c) <==> (c == '\t' || c == '\n' || c == '\u{0B}' || c == '\u{0C}' || c == '\r' || c == ' '
            || c == '\u{85}' || c == '\u{A0}' || c == '\u{1680}' || ('\u{2000}' <= c && c <= '\u{200A}')
            || c == '\u{2028}' || c == '\u{2029}' || c == '\u{202F}' || c == '\u{205F}' || c == '\u{3000}'),
{
}

/// A tab, line feed, carriage return or space before a token is passed over: the tokenizer
/// reads from just after it what it reads from it.
pub proof fn lemma_white_space_skipped(s: Seq<char>, p: int)
    requires
        0 <= p < s.len(),
        s[p] == '\t' || s[p] == '\n' || s[p] == '\r' || s[p] == ' ',
    ensures
        lex_next(s, p) == lex_next(s, p + 1),
        skip_ws(s, p) == skip_ws(s, p + 1),
{
}

/// A field that is left out.
pub open spec fn left_out() -> Result<Option<Seq<u8>>, crate::errors::EncodeError> {
    Ok(None)
}

/// A field written as the value's own text, or the error met encoding it.
pub open spec fn written(r: Result<Seq<u8>, crate::errors::EncodeError>) -> Result<Option<Seq<u8>>, crate::errors::EncodeError> {
    match r {
        Ok(t) => Ok(Some(t)),
        Err(e) => Err(e),
    }
}

/// A struct field of a numeric or account type is left out of the JSON text exactly when it
/// holds zero, and is otherwise written as its value; a boolean field exactly when it is
/// false; a string or bytes field exactly when it is empty.
pub proof fn lemma_zero_fields_omitted()
    ensures
        forall|x: u8| #[trigger] field_json(ValueModel::U8(x), ValueType::U8) == (if x == 0 { left_out() } else { written(json_of(ValueModel::U8(x), ValueType::U8)) }),
        forall|x: u16| #[trigger] field_json(ValueModel::U16(x), ValueType::U16) == (if x == 0 { left_out() } else { written(json_of(ValueModel::U16(x), ValueType::U16)) }),
        forall|x: u32| #[trigger] field_json(ValueModel::U32(x), ValueType::U32) == (if x == 0 { left_out() } else { written(json_of(ValueModel::U32(x), ValueType::U32)) }),
        forall|x: u64| #[trigger] field_json(ValueModel::U64(x), ValueType::U64) == (if x == 0 { left_out() } else { written(json_of(ValueModel::U64(x), ValueType::U64)) }),
        forall|x: u128| #[trigger] field_json(ValueModel::U128(x), ValueType::U128) == (if x == 0 { left_out() } else { written(json_of(ValueModel::U128(x), ValueType::U128)) }),
        forall|x: i8| #[trigger] field_json(ValueModel::I8(x), ValueType::I8) == (if x == 0 { left_out() } else { written(json_of(ValueModel::I8(x), ValueType::I8)) }),
        forall|x: i16| #[trigger] field_json(ValueModel::I16(x), ValueType::I16) == (if x == 0 { left_out() } else { written(json_of(ValueModel::I16(x), ValueType::I16)) }),
        forall|x: i32| #[trigger] field_json(ValueModel::I32(x), ValueType::I32) == (if x == 0 { left_out() } else { written(json_of(ValueModel::I32(x), ValueType::I32)) }),
        forall|x: i64| #[trigger] field_json(ValueModel::I64(x), ValueType::I64) == (if x == 0 { left_out() } else { written(json_of(ValueModel::I64(x), ValueType::I64)) }),
        forall|x: i128| #[trigger] field_json(ValueModel::I128(x), ValueType::I128) == (if x == 0 { left_out() } else { written(json_of(ValueModel::I128(x), ValueType::I128)) }),
        forall|x: u128| #[trigger] field_json(ValueModel::AccountID(x), ValueType::AccountID) == (if x == 0 { left_out() } else { written(json_of(ValueModel::AccountID(x), ValueType::AccountID)) }),
        forall|b: bool| #[trigger] field_json(ValueModel::Bool(b), ValueType::Bool) == (if !b { left_out() } else { written(json_of(ValueModel::Bool(b), ValueType::Bool)) }),
        forall|x: Seq<char>| #[trigger] field_json(ValueModel::Str(x), ValueType::Str) == (if x.len() == 0 { left_out() } else { written(json_of(ValueModel::Str(x), ValueType::Str)) }),
        forall|x: Seq<u8>| #[trigger] field_json(ValueModel::Bytes(x), ValueType::Bytes) == (if x.len() == 0 { left_out() } else { written(json_of(ValueModel::Bytes(x), ValueType::Bytes)) }),
{
}

/// A list field is left out exactly when it is empty, a nullable field exactly when it is
/// absent, and an enum field exactly when it holds discriminant zero without a value; otherwise
/// the field is written as the value's own text.
pub proof fn lemma_empty_fields_omitted(v: ValueModel, t: ValueType)
    ensures
        (v, t) matches (ValueModel::List(xs), ValueType::List(_)) ==> field_json(v, t) == (if xs.len() == 0 {
            left_out()
        } else {
            written(json_of(v, t))
        }),
        (v, t) matches (ValueModel::Nullable(p), ValueType::Nullable(_)) ==> field_json(v, t) == (if p is None {
            left_out()
        } else {
            written(json_of(v, t))
        }),
        (v, t) matches (ValueModel::Enum(d, p), ValueType::Enum(_)) ==> field_json(v, t) == (if d == 0 && p is None {
            left_out()
        } else {
            written(json_of(v, t))
        }),
{
}

/// Wherever reading starts, the keywords `true`, `false` and `null` read as their tokens and
/// the structural characters as theirs, each ending just after its text.
pub proof fn lemma_keywords_and_punctuation(s: Seq<char>, p: int)
    requires
        0 <= p < s.len(),
    ensures
        p + 4 <= s.len() && s.subrange(p, p + 4) == seq!['t', 'r', 'u', 'e'] ==> lex_next(s, p) == (
            Some(Ok::<TokenModel, TokenErrorModel>(TokenModel::Boolean(true))),
            p + 4,
        ),
        p + 5 <= s.len() && s.subrange(p, p + 5) == seq!['f', 'a', 'l', 's', 'e'] ==> lex_next(s, p) == (
            Some(Ok::<TokenModel, TokenErrorModel>(TokenModel::Boolean(false))),
            p + 5,
        ),
        p + 4 <= s.len() && s.subrange(p, p + 4) == seq!['n', 'u', 'l', 'l'] ==> lex_next(s, p) == (
            Some(Ok::<TokenModel, TokenErrorModel>(TokenModel::Null)),
            p + 4,
        ),
        s[p] == '{' ==> lex_next(s, p) == (Some(Ok::<TokenModel, TokenErrorModel>(TokenModel::LBrace)), p + 1),
        s[p] == '}' ==> lex_next(s, p) == (Some(Ok::<TokenModel, TokenErrorModel>(TokenModel::RBrace)), p + 1),
        s[p] == '[' ==> lex_next(s, p) == (Some(Ok::<TokenModel, TokenErrorModel>(TokenModel::LBracket)), p + 1),
        s[p] == ']' ==> lex_next(s, p) == (Some(Ok::<TokenModel, TokenErrorModel>(TokenModel::RBracket)), p + 1),
        s[p] == ':' ==> lex_next(s, p) == (Some(Ok::<TokenModel, TokenErrorModel>(TokenModel::Colon)), p + 1),
        s[p] == ',' ==> lex_next(s, p) == (Some(Ok::<TokenModel, TokenErrorModel>(TokenModel::Comma)), p + 1),
{
    if p + 4 <= s.len() && s.subrange(p, p + 4) == seq!['t', 'r', 'u', 'e'] {
        assert(s[p] == s.subrange(p, p + 4)[0]);
    }
    if p + 5 <= s.len() && s.subrange(p, p + 5) == seq!['f', 'a', 'l', 's', 'e'] {
        assert(s[p] == s.subrange(p, p + 5)[0]);
    }
    if p + 4 <= s.len() && s.subrange(p, p + 4) == seq!['n', 'u', 'l', 'l'] {
        assert(s[p] == s.subrange(p, p + 4)[0]);
    }
}

} // verus!
