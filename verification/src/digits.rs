//! Writing and reading numbers as digit text.
use vstd::prelude::*;

verus! {

/// The digit character for `d`: `0`-`9`, then `a`-`f`.
pub open spec fn digit_char(d: nat) -> char {
    if d < 10 {
        (48 + d) as char
    } else {
        (87 + d) as char
    }
}

/// The digits of `x` in base `base`, most significant first, without leading zeros
/// (a single `0` for zero).
pub open spec fn digits(x: nat, base: nat) -> Seq<char>
    decreases x,
{
    if base < 2 {
        Seq::empty()
    } else if x < base {
        seq![digit_char(x)]
    } else {
        proof {
            vstd::arithmetic::div_mod::lemma_div_decreases(x as int, base as int);
        }
        digits(x / base, base).push(digit_char(x % base))
    }
}

/// The character for the digit `d`.
fn digit(d: u128) -> (c: char)
    requires
        d < 16,
    ensures
        c == digit_char(d as nat),
{
    if d < 10 {
        (48u8 + d as u8) as char
    } else {
        (87u8 + d as u8) as char
    }
}

/// Appends the digits of `x` in base `base`.
pub fn push_digits(out: &mut Vec<char>, x: u128, base: u128)
    requires
        2 <= base <= 16,
    ensures
        final(out)@ == old(out)@ + digits(x as nat, base as nat),
    decreases x,
{
    if x < base {
        out.push(digit(x));
        proof {
            assert(final(out)@ =~= old(out)@ + digits(x as nat, base as nat));
        }
    } else {
        proof {
            vstd::arithmetic::div_mod::lemma_div_decreases(x as int, base as int);
        }
        push_digits(out, x / base, base);
        out.push(digit(x % base));
        proof {
            assert(final(out)@ =~= old(out)@ + digits(x as nat, base as nat));
        }
    }
}

/// Appends the characters of `s`.
pub fn push_str(out: &mut Vec<char>, s: &str)
    ensures
        final(out)@ == old(out)@ + s@,
{
    let cs = crate::text::chars_of(s);
    let mut i: usize = 0;
    while i < cs.len()
        invariant
            i <= cs@.len(),
            cs@ == s@,
            out@ == old(out)@ + cs@.take(i as int),
        decreases cs@.len() - i,
    {
        out.push(cs[i]);
        proof {
            assert(cs@.take(i + 1) =~= cs@.take(i as int).push(cs@[i as int]));
        }
        i = i + 1;
    }
    proof {
        assert(cs@.take(i as int) =~= cs@);
    }
}

/// The value of a decimal digit.
pub open spec fn dec_val(c: char) -> Option<int> {
    if '0' <= c <= '9' {
        Some(c as int - 48)
    } else {
        None
    }
}

/// The value of a sequence of decimal digits.
pub open spec fn dec_digits_val(ds: Seq<char>) -> Option<int>
    decreases ds.len(),
{
    if ds.len() == 0 {
        Some(0)
    } else {
        match (dec_digits_val(ds.drop_last()), dec_val(ds.last())) {
            (Some(v), Some(d)) => Some(v * 10 + d),
            _ => None,
        }
    }
}

/// What `from_str` of an integer type ranging from `min` to `max` makes of text: an
/// optional `+` (or `-`, for a signed type) and at least one decimal digit, of a value in
/// range.
pub open spec fn parse_int(s: Seq<char>, min: int, max: int) -> Option<int> {
    if s.len() == 0 {
        None
    } else if s[0] == '+' || (s[0] == '-' && min < 0) {
        if s.len() == 1 {
            None
        } else {
            match dec_digits_val(s.drop_first()) {
                Some(v) => {
                    let x = if s[0] == '-' { -v } else { v };
                    if min <= x <= max { Some(x) } else { None }
                },
                None => None,
            }
        }
    } else {
        match dec_digits_val(s) {
            Some(v) => if min <= v <= max { Some(v) } else { None },
            None => None,
        }
    }
}

/// A digit that is not a digit leaves the whole sequence without a value.
proof fn lemma_dec_digits_none(ds: Seq<char>, k: int)
    requires
        0 <= k < ds.len(),
        dec_val(ds[k]) is None,
    ensures
        dec_digits_val(ds) is None,
    decreases ds.len(),
{
    if k < ds.len() - 1 {
        assert(ds.drop_last()[k] == ds[k]);
        lemma_dec_digits_none(ds.drop_last(), k);
    }
}

/// The value of the decimal digits of `cs` from `start` on, if they are all digits and it
/// is at most `limit`.
fn dec_digits(cs: &Vec<char>, start: usize, limit: u128) -> (r: Option<u128>)
    requires
        start <= cs@.len(),
    ensures
        match r {
            Some(v) => dec_digits_val(cs@.skip(start as int)) == Some(v as int) && v <= limit,
            None => match dec_digits_val(cs@.skip(start as int)) {
                Some(v) => v > limit,
                None => true,
            },
        },
{
    let ghost ds = cs@.skip(start as int);
    let mut v: u128 = 0;
    let ghost mut val: int = 0;
    let mut over = false;
    let mut i = start;
    proof {
        assert(ds.take(0) =~= Seq::<char>::empty());
    }
    while i < cs.len()
        invariant
            start <= i <= cs@.len(),
            ds == cs@.skip(start as int),
            dec_digits_val(ds.take(i - start)) == Some(val),
            val >= 0,
            over <==> val > limit,
            !over ==> v == val,
        decreases cs@.len() - i,
    {
        let ghost k = i - start;
        proof {
            assert(ds.take(k + 1).drop_last() =~= ds.take(k));
            assert(ds.take(k + 1).last() == cs@[i as int]);
            assert(ds[k] == cs@[i as int]);
        }
        let c = cs[i];
        if c < '0' || c > '9' {
            proof {
                lemma_dec_digits_none(ds, k);
            }
            return None;
        }
        let d = (c as u32 - 48) as u128;
        proof {
            val = val * 10 + d;
        }
        if !over {
            if d > limit || v > (limit - d) / 10 {
                over = true;
            } else {
                v = v * 10 + d;
            }
        }
        i = i + 1;
    }
    proof {
        assert(ds.take(i - start) =~= ds);
    }
    if over {
        None
    } else {
        Some(v)
    }
}

/// What `u128::from_str` makes of `s`.
pub fn parse_u128(s: &str) -> (r: Option<u128>)
    ensures
        match r {
            Some(v) => parse_int(s@, 0, u128::MAX as int) == Some(v as int),
            None => parse_int(s@, 0, u128::MAX as int) is None,
        },
{
    let cs = crate::text::chars_of(s);
    if cs.len() == 0 {
        return None;
    }
    let start: usize = if cs[0] == '+' { 1 } else { 0 };
    if start == 1 && cs.len() == 1 {
        return None;
    }
    proof {
        if start == 1 {
            assert(cs@.skip(1) =~= cs@.drop_first());
        } else {
            assert(cs@.skip(0) =~= cs@);
        }
    }
    dec_digits(&cs, start, u128::MAX)
}

/// What `i128::from_str` makes of `s`.
pub fn parse_i128(s: &str) -> (r: Option<i128>)
    ensures
        match r {
            Some(v) => parse_int(s@, i128::MIN as int, i128::MAX as int) == Some(v as int),
            None => parse_int(s@, i128::MIN as int, i128::MAX as int) is None,
        },
{
    let cs = crate::text::chars_of(s);
    if cs.len() == 0 {
        return None;
    }
    let neg = cs[0] == '-';
    let start: usize = if cs[0] == '+' || neg { 1 } else { 0 };
    if start == 1 && cs.len() == 1 {
        return None;
    }
    proof {
        if start == 1 {
            assert(cs@.skip(1) =~= cs@.drop_first());
        } else {
            assert(cs@.skip(0) =~= cs@);
        }
    }
    let limit: u128 = if neg { 0x8000_0000_0000_0000_0000_0000_0000_0000u128 } else { 0x7fff_ffff_ffff_ffff_ffff_ffff_ffff_ffffu128 };
    match dec_digits(&cs, start, limit) {
        None => None,
        Some(m) => {
            if neg {
                if m == 0x8000_0000_0000_0000_0000_0000_0000_0000u128 {
                    Some(i128::MIN)
                } else {
                    Some(-(m as i128))
                }
            } else {
                Some(m as i128)
            }
        },
    }
}

} // verus!
