//! JSON string escaping.
use vstd::prelude::*;
use vstd::utf8::{encode_scalar, encode_utf8, has_width_1_encoding, is_scalar, char_is_scalar, leading_byte_width_1, leading_byte_width_2, leading_byte_width_3, leading_byte_width_4, last_continuation_byte, second_last_continuation_byte, third_last_continuation_byte, has_width_2_encoding, has_width_3_encoding, has_width_4_encoding};

verus! {

/// The uppercase hexadecimal digit of a nibble.
pub open spec fn hex_digit(n: u32) -> char {
    if n < 10 {
        ('0' as u32 + n) as char
    } else {
        ('A' as u32 + n - 10) as char
    }
}

/// The escaped form of one character: quotes, backslashes and control characters are
/// escaped, everything else is kept.
pub open spec fn escape_char(c: char) -> Seq<char> {
    if c == '"' {
        seq!['\\', '"']
    } else if c == '\\' {
        seq!['\\', '\\']
    } else if c == '\u{8}' {
        seq!['\\', 'b']
    } else if c == '\u{c}' {
        seq!['\\', 'f']
    } else if c == '\n' {
        seq!['\\', 'n']
    } else if c == '\r' {
        seq!['\\', 'r']
    } else if c == '\t' {
        seq!['\\', 't']
    } else if (c as u32) <= 0x1f {
        seq!['\\', 'u', '0', '0', hex_digit((c as u32) / 16), hex_digit((c as u32) % 16)]
    } else {
        seq![c]
    }
}

/// The escaped form of a string, without surrounding quotes.
pub open spec fn escape_chars(s: Seq<char>) -> Seq<char>
    decreases s.len(),
{
    if s.len() == 0 {
        Seq::empty()
    } else {
        escape_char(s[0]) + escape_chars(s.drop_first())
    }
}

/// The escaped form of one byte of UTF-8 text.
pub open spec fn escape_byte(b: u8) -> Seq<u8> {
    if b == 0x22 {
        seq![0x5cu8, 0x22u8]
    } else if b == 0x5c {
        seq![0x5cu8, 0x5cu8]
    } else if b == 0x08 {
        seq![0x5cu8, 0x62u8]
    } else if b == 0x0c {
        seq![0x5cu8, 0x66u8]
    } else if b == 0x0a {
        seq![0x5cu8, 0x6eu8]
    } else if b == 0x0d {
        seq![0x5cu8, 0x72u8]
    } else if b == 0x09 {
        seq![0x5cu8, 0x74u8]
    } else if b <= 0x1f {
        seq![0x5cu8, 0x75u8, 0x30u8, 0x30u8, hex_digit((b as u32) / 16) as u8, hex_digit((b as u32) % 16) as u8]
    } else {
        seq![b]
    }
}

/// The escaped form of UTF-8 text, byte by byte.
pub open spec fn escape_bytes(s: Seq<u8>) -> Seq<u8>
    decreases s.len(),
{
    if s.len() == 0 {
        Seq::empty()
    } else {
        escape_byte(s[0]) + escape_bytes(s.drop_first())
    }
}

proof fn lemma_escape_bytes_concat(a: Seq<u8>, b: Seq<u8>)
    ensures
        escape_bytes(a + b) == escape_bytes(a) + escape_bytes(b),
    decreases a.len(),
{
    if a.len() == 0 {
        assert(a + b =~= b);
        assert(escape_bytes(a) + escape_bytes(b) =~= escape_bytes(b));
    } else {
        assert((a + b).drop_first() =~= a.drop_first() + b);
        assert((a + b)[0] == a[0]);
        lemma_escape_bytes_concat(a.drop_first(), b);
        assert(escape_bytes(a + b) =~= escape_bytes(a) + escape_bytes(b));
    }
}

proof fn lemma_encode_utf8_concat(a: Seq<char>, b: Seq<char>)
    ensures
        encode_utf8(a + b) == encode_utf8(a) + encode_utf8(b),
    decreases a.len(),
{
    if a.len() == 0 {
        assert(a + b =~= b);
        assert(encode_utf8(a) + encode_utf8(b) =~= encode_utf8(b));
    } else {
        assert((a + b).drop_first() =~= a.drop_first() + b);
        assert((a + b)[0] == a[0]);
        lemma_encode_utf8_concat(a.drop_first(), b);
        assert(encode_utf8(a + b) =~= encode_utf8(a) + encode_utf8(b));
    }
}

/// Text made of ASCII characters encodes to those characters' codes.
pub(crate) proof fn lemma_encode_ascii(s: Seq<char>)
    requires
        forall|i: int| 0 <= i < s.len() ==> (#[trigger] s[i] as u32) <= 0x7f,
    ensures
        encode_utf8(s) == Seq::new(s.len(), |i: int| (s[i] as u32) as u8),
    decreases s.len(),
{
    if s.len() == 0 {
        assert(encode_utf8(s) =~= Seq::new(s.len(), |i: int| (s[i] as u32) as u8));
    } else {
        let c = s[0];
        let x = c as u32;
        assert(x <= 0x7f);
        assert(x <= 0x7f ==> (x & 0x7f) as u8 == x as u8) by (bit_vector);
        assert(forall|i: int| 0 <= i < s.drop_first().len() ==> s.drop_first()[i] == s[i + 1]);
        assert forall|i: int| 0 <= i < s.drop_first().len() implies (#[trigger] s.drop_first()[i] as u32) <= 0x7f by {
            assert(s.drop_first()[i] == s[i + 1]);
        }
        lemma_encode_ascii(s.drop_first());
        assert(has_width_1_encoding(x));
        assert(encode_scalar(x) == seq![leading_byte_width_1(x)]);
        assert(leading_byte_width_1(x) == x as u8);
        let rest = Seq::new(s.drop_first().len(), |i: int| (s.drop_first()[i] as u32) as u8);
        assert(encode_utf8(s) == seq![x as u8] + rest);
        assert(encode_utf8(s) =~= Seq::new(s.len(), |i: int| (s[i] as u32) as u8));
    }
}

proof fn lemma_escape_scalar(c: char)
    ensures
        escape_bytes(encode_scalar(c as u32)) == encode_utf8(escape_char(c)),
{
    let x = c as u32;
    char_is_scalar(c);
    if x <= 0x7f {
        assert(x <= 0x7f ==> (x & 0x7f) as u8 == x as u8) by (bit_vector);
        let b = x as u8;
        assert(encode_scalar(x) =~= seq![b]);
        assert(seq![b].drop_first() =~= Seq::<u8>::empty());
        assert(seq![b][0] == b);
        assert(escape_bytes(Seq::<u8>::empty()) == Seq::<u8>::empty());
        assert(escape_bytes(seq![b]) == escape_byte(b) + escape_bytes(seq![b].drop_first()));
        assert(escape_bytes(seq![b]) =~= escape_byte(b));
        let e = escape_char(c);
        assert forall|i: int| 0 <= i < e.len() implies (#[trigger] e[i] as u32) <= 0x7f by {
            if x <= 0x1f && !(c == '"' || c == '\\' || c == '\u{8}' || c == '\u{c}' || c == '\n' || c == '\r' || c == '\t') {
                assert(x / 16 <= 1);
                assert(x % 16 < 16);
            }
        }
        lemma_encode_ascii(e);
        assert(escape_byte(b) =~= Seq::new(e.len(), |i: int| (e[i] as u32) as u8));
    } else {
        let s = encode_scalar(x);
        assert(escape_char(c) =~= seq![c]);
        assert(seq![c].drop_first() =~= Seq::<char>::empty());
        assert(seq![c][0] == c);
        assert(encode_utf8(Seq::<char>::empty()) == Seq::<u8>::empty());
        assert(encode_utf8(seq![c]) == encode_scalar(x) + encode_utf8(seq![c].drop_first()));
        assert(encode_utf8(seq![c]) =~= encode_scalar(x));
        assert(forall|i: int| 0 <= i < s.len() ==> s[i] >= 0x80) by {
            assert(0x80 <= x ==> (0xC0 | ((x >> 6) & 0x1F) as u8) >= 0x80 && (0xE0 | ((x >> 12) & 0x0F) as u8) >= 0x80
                && (0xF0 | ((x >> 18) & 0x7) as u8) >= 0x80 && (0x80 | (x & 0x3F) as u8) >= 0x80
                && (0x80 | ((x >> 6) & 0x3F) as u8) >= 0x80 && (0x80 | ((x >> 12) & 0x3F) as u8) >= 0x80) by (bit_vector);
        }
        lemma_escape_bytes_plain(s);
    }
}

proof fn lemma_escape_bytes_plain(s: Seq<u8>)
    requires
        forall|i: int| 0 <= i < s.len() ==> s[i] >= 0x80,
    ensures
        escape_bytes(s) == s,
    decreases s.len(),
{
    if s.len() > 0 {
        assert(forall|i: int| 0 <= i < s.drop_first().len() ==> s.drop_first()[i] == s[i + 1]);
        lemma_escape_bytes_plain(s.drop_first());
        assert(escape_bytes(s) =~= s);
    }
}

/// Escaping the UTF-8 bytes of a string one by one gives the UTF-8 bytes of the escaped string.
pub proof fn lemma_escape_bytes_utf8(s: Seq<char>)
    ensures
        escape_bytes(encode_utf8(s)) == encode_utf8(escape_chars(s)),
    decreases s.len(),
{
    if s.len() > 0 {
        lemma_escape_bytes_utf8(s.drop_first());
        lemma_escape_bytes_concat(encode_scalar(s[0] as u32), encode_utf8(s.drop_first()));
        lemma_encode_utf8_concat(escape_char(s[0]), escape_chars(s.drop_first()));
        lemma_escape_scalar(s[0]);
    }
}

fn push_hex_digit(out: &mut Vec<u8>, n: u8)
    requires
        n < 16,
    ensures
        final(out)@ == old(out)@.push(hex_digit(n as u32) as u8),
{
    if n < 10 {
        out.push(0x30u8 + n);
    } else {
        out.push(0x41u8 + n - 10);
    }
}

/// Appends the JSON escaping of `input`, without surrounding quotes, as UTF-8.
pub fn escape_json_inner(input: &str, out: &mut Vec<u8>)
    ensures
        final(out)@ == old(out)@ + encode_utf8(escape_chars(input@)),
{
    let bytes = input.as_bytes();
    let ghost start = out@;
    let mut i: usize = 0;
    proof {
        assert(bytes@.take(0) =~= Seq::<u8>::empty());
        assert(out@ =~= start + escape_bytes(bytes@.take(0)));
    }
    while i < bytes.len()
        invariant
            i <= bytes@.len(),
            out@ == start + escape_bytes(bytes@.take(i as int)),
        decreases bytes@.len() - i,
    {
        let b = bytes[i];
        let ghost before = out@;
        if b == 0x22 {
            out.push(0x5c);
            out.push(0x22);
        } else if b == 0x5c {
            out.push(0x5c);
            out.push(0x5c);
        } else if b == 0x08 {
            out.push(0x5c);
            out.push(0x62);
        } else if b == 0x0c {
            out.push(0x5c);
            out.push(0x66);
        } else if b == 0x0a {
            out.push(0x5c);
            out.push(0x6e);
        } else if b == 0x0d {
            out.push(0x5c);
            out.push(0x72);
        } else if b == 0x09 {
            out.push(0x5c);
            out.push(0x74);
        } else if b <= 0x1f {
            out.push(0x5c);
            out.push(0x75);
            out.push(0x30);
            out.push(0x30);
            let hi = (b & 0xf0) >> 4;
            let lo = b & 0x0f;
            assert(((b & 0xf0) >> 4) as u32 == (b as u32) / 16 && (b & 0x0f) as u32 == (b as u32) % 16) by (bit_vector);
            assert((b & 0xf0) >> 4 < 16 && b & 0x0f < 16) by (bit_vector);
            push_hex_digit(out, hi);
            push_hex_digit(out, lo);
        } else {
            out.push(b);
        }
        proof {
            assert(out@ =~= before + escape_byte(b));
            lemma_escape_bytes_concat(bytes@.take(i as int), seq![b]);
            assert(bytes@.take(i + 1) =~= bytes@.take(i as int) + seq![b]);
            assert(seq![b].drop_first() =~= Seq::<u8>::empty());
            assert(seq![b][0] == b);
            assert(escape_bytes(Seq::<u8>::empty()) == Seq::<u8>::empty());
            assert(escape_bytes(seq![b]) == escape_byte(b) + escape_bytes(seq![b].drop_first()));
            assert(escape_bytes(seq![b]) =~= escape_byte(b));
        }
        i = i + 1;
    }
    proof {
        assert(bytes@.take(i as int) =~= bytes@);
        lemma_escape_bytes_utf8(input@);
    }
}

/// Appends the JSON string literal for `input`: its escaping between double quotes, as UTF-8.
pub fn escape_json(input: &str, out: &mut Vec<u8>)
    ensures
        final(out)@ == old(out)@ + encode_utf8(seq!['"'] + escape_chars(input@) + seq!['"']),
{
    out.push(0x22);
    escape_json_inner(input, out);
    out.push(0x22);
    proof {
        let q = seq!['"'];
        lemma_encode_utf8_concat(q, escape_chars(input@));
        lemma_encode_utf8_concat(q + escape_chars(input@), q);
        lemma_encode_ascii(q);
        assert(encode_utf8(q) =~= seq![0x22u8]);
        assert(final(out)@ =~= old(out)@ + encode_utf8(q + escape_chars(input@) + q));
    }
}

} // verus!
