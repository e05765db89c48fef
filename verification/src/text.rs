//! Conversions between UTF-8 bytes and strings.
use vstd::prelude::*;
use vstd::utf8::{char_is_scalar, decode_utf8, encode_scalar, encode_utf8, encode_utf8_decode_utf8, encode_utf8_valid_utf8, has_width_1_encoding, has_width_2_encoding, has_width_3_encoding, has_width_4_encoding, is_scalar, valid_utf8};

verus! {

/// Calls `String::from_utf8` from std and keeps the string if the bytes are valid UTF-8.
/// Claimed: the result is present exactly when the bytes are valid UTF-8, and then holds the
/// characters those bytes encode.
#[verifier::external_body]
pub(crate) fn string_from_utf8(bytes: Vec<u8>) -> (r: Option<String>)
    ensures
        r is Some <==> valid_utf8(bytes@),
        r matches Some(s) ==> s@ == decode_utf8(bytes@),
{
    String::from_utf8(bytes).ok()
}

/// Calls `core::str::from_utf8` from core and keeps the borrowed string if the bytes are
/// valid UTF-8.
/// Claimed: the result is present exactly when the bytes are valid UTF-8, and then holds the
/// characters those bytes encode.
#[verifier::external_body]
pub(crate) fn str_from_utf8(bytes: &[u8]) -> (r: Option<&str>)
    ensures
        r is Some <==> valid_utf8(bytes@),
        r matches Some(s) ==> s@ == decode_utf8(bytes@),
{
    core::str::from_utf8(bytes).ok()
}

/// Whether two strings hold the same characters.
pub fn str_eq(a: &str, b: &str) -> (r: bool)
    ensures
        r == (a@ == b@),
{
    let x = a.as_bytes();
    let y = b.as_bytes();
    proof {
        encode_utf8_decode_utf8(a@);
        encode_utf8_decode_utf8(b@);
    }
    if x.len() != y.len() {
        return false;
    }
    let mut i: usize = 0;
    while i < x.len()
        invariant
            x@.len() == y@.len(),
            x@ == encode_utf8(a@),
            y@ == encode_utf8(b@),
            i <= x@.len(),
            forall|j: int| 0 <= j < i ==> x@[j] == y@[j],
        decreases x@.len() - i,
    {
        if x[i] != y[i] {
            return false;
        }
        i = i + 1;
    }
    proof {
        assert(x@ =~= y@);
    }
    true
}

/// The characters of a string.
pub fn chars_of(s: &str) -> (v: Vec<char>)
    ensures
        v@ == s@,
{
    broadcast use vstd::string::axiom_spec_iter;
    let mut v: Vec<char> = Vec::new();
    for c in it: s.chars()
        invariant
            v@ == it.seq().take(it.index()),
    {
        v.push(c);
    }
    v
}

/// Calls `char::from_u32` from core.
/// Claimed: the result is present exactly when `code` is a Unicode scalar value, and then is
/// the character with that value.
#[verifier::external_body]
pub(crate) fn char_from_u32(code: u32) -> (r: Option<char>)
    ensures
        r is Some <==> is_scalar(code),
        r matches Some(c) ==> c as u32 == code,
{
    char::from_u32(code)
}

/// Appends the UTF-8 encoding of `c`.
pub fn push_utf8(out: &mut Vec<u8>, c: char)
    ensures
        final(out)@ == old(out)@ + encode_scalar(c as u32),
{
    let x = c as u32;
    proof {
        char_is_scalar(c);
    }
    if x <= 0x7f {
        out.push((x & 0x7f) as u8);
    } else if x <= 0x7ff {
        out.push(0xc0 | ((x >> 6) & 0x1f) as u8);
        out.push(0x80 | (x & 0x3f) as u8);
    } else if x <= 0xffff {
        out.push(0xe0 | ((x >> 12) & 0x0f) as u8);
        out.push(0x80 | ((x >> 6) & 0x3f) as u8);
        out.push(0x80 | (x & 0x3f) as u8);
    } else {
        out.push(0xf0 | ((x >> 18) & 0x7) as u8);
        out.push(0x80 | ((x >> 12) & 0x3f) as u8);
        out.push(0x80 | ((x >> 6) & 0x3f) as u8);
        out.push(0x80 | (x & 0x3f) as u8);
    }
    proof {
        assert(final(out)@ =~= old(out)@ + encode_scalar(x));
    }
}

/// A string holding the given characters.
pub fn string_from_chars(cs: &Vec<char>) -> (s: String)
    ensures
        s@ == cs@,
{
    let mut bytes: Vec<u8> = Vec::new();
    let mut i: usize = 0;
    while i < cs.len()
        invariant
            i <= cs@.len(),
            bytes@ == encode_utf8(cs@.take(i as int)),
        decreases cs@.len() - i,
    {
        let ghost before = bytes@;
        push_utf8(&mut bytes, cs[i]);
        proof {
            lemma_encode_utf8_push(cs@.take(i as int), cs@[i as int]);
            assert(cs@.take(i + 1) =~= cs@.take(i as int).push(cs@[i as int]));
        }
        i = i + 1;
    }
    proof {
        assert(cs@.take(i as int) =~= cs@);
        encode_utf8_valid_utf8(cs@);
        encode_utf8_decode_utf8(cs@);
    }
    match string_from_utf8(bytes) {
        Some(s) => s,
        None => String::new(),
    }
}

/// The encoding of a string with one more character.
pub proof fn lemma_encode_utf8_push(s: Seq<char>, c: char)
    ensures
        encode_utf8(s.push(c)) == encode_utf8(s) + encode_scalar(c as u32),
    decreases s.len(),
{
    if s.len() == 0 {
        assert(s.push(c).drop_first() =~= Seq::<char>::empty());
        assert(s.push(c)[0] == c);
        assert(encode_utf8(Seq::<char>::empty()) == Seq::<u8>::empty());
        assert(encode_utf8(s.push(c)) =~= encode_utf8(s) + encode_scalar(c as u32));
    } else {
        assert(s.push(c).drop_first() =~= s.drop_first().push(c));
        assert(s.push(c)[0] == s[0]);
        lemma_encode_utf8_push(s.drop_first(), c);
        assert(encode_utf8(s.push(c)) =~= encode_utf8(s) + encode_scalar(c as u32));
    }
}

} // verus!
