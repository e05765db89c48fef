//! Standard base64 with padding, as a specification: each three bytes become four characters
//! of the standard alphabet, and a last group of one or two bytes is padded with `=`.
use vstd::prelude::*;

verus! {

/// The character of the standard alphabet for a six-bit value.
pub open spec fn base64_symbol(i: int) -> char {
    if i < 26 {
        (65 + i) as char
    } else if i < 52 {
        (97 + i - 26) as char
    } else if i < 62 {
        (48 + i - 52) as char
    } else if i == 62 {
        '+'
    } else {
        '/'
    }
}

/// Whether `c` can stand in standard base64 text: a letter, a digit, `+`, `/` or the padding
/// `=`.
pub open spec fn base64_char(c: char) -> bool {
    ('A' <= c <= 'Z') || ('a' <= c <= 'z') || ('0' <= c <= '9') || c == '+' || c == '/' || c == '='
}

proof fn lemma_symbol(i: int)
    requires
        0 <= i < 64,
    ensures
        base64_char(base64_symbol(i)),
        base64_symbol(i) != '=',
        base64_symbol(i) as int == if i < 26 { 65 + i } else if i < 52 { 71 + i } else if i < 62 { i - 4 } else if i == 62 { 43 } else { 47 },
{
}

/// The four characters of a group of three bytes.
pub open spec fn base64_group(x: u8, y: u8, z: u8) -> Seq<char> {
    seq![
        base64_symbol((x / 4) as int),
        base64_symbol(((x % 4) * 16 + y / 16) as int),
        base64_symbol(((y % 16) * 4 + z / 64) as int),
        base64_symbol((z % 64) as int),
    ]
}

/// Standard base64 with padding of `b`.
pub open spec fn base64_standard(b: Seq<u8>) -> Seq<char>
    decreases b.len(),
{
    if b.len() == 0 {
        Seq::empty()
    } else if b.len() == 1 {
        seq![base64_symbol((b[0] / 4) as int), base64_symbol(((b[0] % 4) * 16) as int), '=', '=']
    } else if b.len() == 2 {
        seq![base64_symbol((b[0] / 4) as int), base64_symbol(((b[0] % 4) * 16 + b[1] / 16) as int), base64_symbol(((b[1] % 16) * 4) as int), '=']
    } else {
        base64_group(b[0], b[1], b[2]) + base64_standard(b.subrange(3, b.len() as int))
    }
}

/// What standard base64 decoding makes of text: the bytes whose encoding the text is, if it is
/// one. Decoding with padding required and no trailing bits accepts exactly these texts.
pub open spec fn base64_standard_decode(text: Seq<char>) -> Option<Seq<u8>> {
    if exists|b: Seq<u8>| base64_standard(b) == text {
        Some(choose|b: Seq<u8>| base64_standard(b) == text)
    } else {
        None
    }
}

/// Base64 text is made of the alphabet and the padding character.
pub proof fn lemma_base64_chars(b: Seq<u8>)
    ensures
        forall|i: int| 0 <= i < base64_standard(b).len() ==> base64_char(#[trigger] base64_standard(b)[i]),
    decreases b.len(),
{
    let e = base64_standard(b);
    if b.len() == 0 {
    } else if b.len() <= 2 {
        lemma_symbol((b[0] / 4) as int);
        if b.len() == 1 {
            lemma_symbol(((b[0] % 4) * 16) as int);
        } else {
            lemma_symbol(((b[0] % 4) * 16 + b[1] / 16) as int);
            lemma_symbol(((b[1] % 16) * 4) as int);
        }
    } else {
        let rest = b.subrange(3, b.len() as int);
        lemma_base64_chars(rest);
        let g = base64_group(b[0], b[1], b[2]);
        lemma_symbol((b[0] / 4) as int);
        lemma_symbol(((b[0] % 4) * 16 + b[1] / 16) as int);
        lemma_symbol(((b[1] % 16) * 4 + b[2] / 64) as int);
        lemma_symbol((b[2] % 64) as int);
        assert forall|i: int| 0 <= i < e.len() implies base64_char(#[trigger] e[i]) by {
            if i >= 4 {
                assert(e[i] == base64_standard(rest)[i - 4]);
            }
        }
    }
}

/// The length of an encoding, and where padding can stand: only in the last group.
proof fn lemma_base64_shape(b: Seq<u8>)
    ensures
        base64_standard(b).len() == 4 * ((b.len() + 2) / 3),
        b.len() >= 3 ==> base64_standard(b).subrange(0, 4) == base64_group(b[0], b[1], b[2]),
        b.len() >= 3 ==> base64_standard(b).subrange(4, base64_standard(b).len() as int) == base64_standard(
            b.subrange(3, b.len() as int),
        ),
    decreases b.len(),
{
    if b.len() >= 3 {
        lemma_base64_shape(b.subrange(3, b.len() as int));
        let e = base64_standard(b);
        assert(e.subrange(0, 4) =~= base64_group(b[0], b[1], b[2]));
        assert(e.subrange(4, e.len() as int) =~= base64_standard(b.subrange(3, b.len() as int)));
    }
}

proof fn lemma_symbol_injective(i: int, j: int)
    requires
        0 <= i < 64,
        0 <= j < 64,
        base64_symbol(i) == base64_symbol((j) as int),
    ensures
        i == j,
{
    lemma_symbol((i) as int);
    lemma_symbol((j) as int);
}

/// Different bytes have different encodings.
pub proof fn lemma_base64_injective(a: Seq<u8>, b: Seq<u8>)
    requires
        base64_standard(a) == base64_standard(b),
    ensures
        a == b,
    decreases a.len(),
{
    lemma_base64_shape(a);
    lemma_base64_shape(b);
    let ea = base64_standard(a);
    let eb = base64_standard(b);
    assert(ea.len() == eb.len());
    if a.len() == 0 {
        assert(b.len() == 0);
        assert(a =~= b);
    } else if a.len() >= 3 && b.len() >= 3 {
        assert(ea.subrange(0, 4) == eb.subrange(0, 4));
        let (x, y, z) = (a[0], a[1], a[2]);
        let (u, v, w) = (b[0], b[1], b[2]);
        lemma_symbol_injective((x / 4) as int, (u / 4) as int);
        assert(base64_group(x, y, z)[1] == base64_group(u, v, w)[1]);
        lemma_symbol_injective(((x % 4) * 16 + y / 16) as int, ((u % 4) * 16 + v / 16) as int);
        assert(base64_group(x, y, z)[2] == base64_group(u, v, w)[2]);
        lemma_symbol_injective(((y % 16) * 4 + z / 64) as int, ((v % 16) * 4 + w / 64) as int);
        assert(base64_group(x, y, z)[3] == base64_group(u, v, w)[3]);
        lemma_symbol_injective((z % 64) as int, (w % 64) as int);
        assert(x == u && y == v && z == w) by (bit_vector)
            requires
                x / 4 == u / 4,
                (x % 4) * 16 + y / 16 == (u % 4) * 16 + v / 16,
                (y % 16) * 4 + z / 64 == (v % 16) * 4 + w / 64,
                z % 64 == w % 64,
        ;
        lemma_base64_injective(a.subrange(3, a.len() as int), b.subrange(3, b.len() as int));
        assert(a =~= seq![x, y, z] + a.subrange(3, a.len() as int));
        assert(b =~= seq![u, v, w] + b.subrange(3, b.len() as int));
    } else {
        assert(a.len() <= 2 && b.len() <= 2);
        let (x, u) = (a[0], b[0]);
        lemma_symbol_injective((x / 4) as int, (u / 4) as int);
        if a.len() == 1 {
            lemma_symbol(((b[0] % 4) * 16 + if b.len() == 2 { b[1] / 16 } else { 0 }) as int);
            if b.len() == 2 {
                lemma_symbol(((b[1] % 16) * 4) as int);
                assert(ea[2] == '=');
            }
            assert(b.len() == 1);
            lemma_symbol_injective(((x % 4) * 16) as int, ((u % 4) * 16) as int);
            assert(x == u) by (bit_vector)
                requires
                    x / 4 == u / 4,
                    (x % 4) * 16 == (u % 4) * 16,
            ;
            assert(a =~= b);
        } else {
            lemma_symbol(((a[1] % 16) * 4) as int);
            if b.len() == 1 {
                assert(eb[2] == '=');
            }
            assert(b.len() == 2);
            let (y, v) = (a[1], b[1]);
            lemma_symbol_injective(((x % 4) * 16 + y / 16) as int, ((u % 4) * 16 + v / 16) as int);
            lemma_symbol_injective(((y % 16) * 4) as int, ((v % 16) * 4) as int);
            assert(x == u && y == v) by (bit_vector)
                requires
                    x / 4 == u / 4,
                    (x % 4) * 16 + y / 16 == (u % 4) * 16 + v / 16,
                    (y % 16) * 4 == (v % 16) * 4,
            ;
            assert(a =~= b);
        }
    }
}

/// Decoding the encoding of bytes gives them back.
pub proof fn lemma_base64_inverts(b: Seq<u8>)
    ensures
        base64_standard_decode(base64_standard(b)) == Some(b),
{
    let t = base64_standard(b);
    assert(exists|c: Seq<u8>| base64_standard(c) == t);
    let c = choose|c: Seq<u8>| base64_standard(c) == t;
    lemma_base64_injective(c, b);
}

} // verus!
