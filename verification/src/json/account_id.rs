//! Account IDs as JSON strings.
use crate::digits::{digits, push_digits};
use crate::errors::{DecodeError, EncodeError};
use crate::json::tokenizer::{hex_digits_val, hex_val, hex_value, lemma_hex_digits_none, parse_hex};
use crate::text::{chars_of, string_from_chars};
use vstd::prelude::*;
use vstd::string::StringExecFns;

verus! {

/// Writes account IDs as strings and reads them back. An implementation may render an
/// account ID as an address, looking it up wherever addresses are kept.
pub trait AccountIDStringCodec {
    /// Appends the string form of `account_id` to `out`.
    fn encode_str(&self, account_id: &u128, out: &mut String) -> Result<(), EncodeError>;

    /// The account ID that `s` names.
    fn decode_str(&self, s: &str) -> Result<u128, DecodeError>;
}

/// The string form of an account ID: `0x` and its lowercase hexadecimal digits.
pub open spec fn account_id_text(id: u128) -> Seq<char> {
    seq!['0', 'x'] + digits(id as nat, 16)
}

/// The account ID a string names: `0x` followed by what `u128::from_str_radix(_, 16)`
/// accepts (an optional `+` and hexadecimal digits, of a value that fits in 128 bits).
pub open spec fn account_id_of(s: Seq<char>) -> Option<u128> {
    if s.len() >= 2 && s[0] == '0' && s[1] == 'x' {
        match parse_hex(s.skip(2)) {
            Some(v) => if v <= u128::MAX {
                Some(v as u128)
            } else {
                None
            },
            None => None,
        }
    } else {
        None
    }
}

/// The default codec, which writes account IDs in hexadecimal.
pub struct DefaultAccountIDStringCodec;

impl DefaultAccountIDStringCodec {
    /// The string form of `account_id`: `0x` and its lowercase hexadecimal digits.
    pub fn encode_string(&self, account_id: &u128) -> (r: String)
        ensures
            r@ == account_id_text(*account_id),
    {
        let mut cs: Vec<char> = Vec::new();
        cs.push('0');
        cs.push('x');
        push_digits(&mut cs, *account_id, 16);
        proof {
            assert(cs@ =~= account_id_text(*account_id));
        }
        string_from_chars(&cs)
    }

    /// The account ID that `s` names, if it names one.
    pub fn decode_string(&self, s: &str) -> (r: Result<u128, DecodeError>)
        ensures
            match account_id_of(s@) {
                Some(id) => r == Ok::<u128, DecodeError>(id),
                None => r == Err::<u128, DecodeError>(DecodeError::InvalidData),
            },
    {
        let cs = chars_of(s);
        if cs.len() < 2 || cs[0] != '0' || cs[1] != 'x' {
            return Err(DecodeError::InvalidData);
        }
        let ghost rest = cs@.skip(2);
        let mut start: usize = 2;
        if cs.len() > 2 && cs[2] == '+' {
            start = 3;
        }
        if start >= cs.len() {
            return Err(DecodeError::InvalidData);
        }
        let ghost ds = cs@.skip(start as int);
        proof {
            if start == 3 {
                assert(rest.drop_first() =~= ds);
            } else {
                assert(rest =~= ds);
            }
            assert(parse_hex(rest) == hex_digits_val(ds));
            assert(ds.take(0) =~= Seq::<char>::empty());
        }
        let mut v: u128 = 0;
        let ghost mut val: int = 0;
        let mut overflow = false;
        let mut i = start;
        while i < cs.len()
            invariant
                cs@ == s@,
                cs@[0] == '0' && cs@[1] == 'x',
                parse_hex(cs@.skip(2)) == hex_digits_val(ds),
                2 <= start <= i <= cs@.len(),
                ds == cs@.skip(start as int),
                hex_digits_val(ds.take(i - start)) == Some(val),
                overflow <==> val > u128::MAX,
                !overflow ==> v == val,
                val >= 0,
            decreases cs@.len() - i,
        {
            let ghost k = i - start;
            proof {
                assert(ds.take(k + 1).drop_last() =~= ds.take(k));
                assert(ds.take(k + 1).last() == cs@[i as int]);
            }
            match hex_value(cs[i]) {
                None => {
                    proof {
                        assert(ds[k] == cs@[i as int]);
                        lemma_hex_digits_none(ds, k);
                        assert(account_id_of(s@) is None);
                    }
                    return Err(DecodeError::InvalidData);
                },
                Some(d) => {
                    proof {
                        val = val * 16 + d;
                    }
                    if !overflow {
                        if v > (u128::MAX - d as u128) / 16 {
                            overflow = true;
                        } else {
                            v = v * 16 + d as u128;
                        }
                    }
                },
            }
            i = i + 1;
        }
        proof {
            assert(ds.take(i - start) =~= ds);
        }
        if overflow {
            Err(DecodeError::InvalidData)
        } else {
            Ok(v)
        }
    }
}

proof fn lemma_hex_digit(d: nat)
    requires
        d < 16,
    ensures
        hex_val(crate::digits::digit_char(d)) == Some(d as u32),
{
}

/// The hexadecimal digits of a number are not empty, start with no sign, and stand for it.
proof fn lemma_hex_digits(x: nat)
    ensures
        digits(x, 16).len() >= 1,
        digits(x, 16)[0] != '+',
        hex_digits_val(digits(x, 16)) == Some(x as int),
    decreases x,
{
    let s = digits(x, 16);
    if x < 16 {
        lemma_hex_digit(x);
        assert(s.drop_last() =~= Seq::<char>::empty());
        assert(s.last() == crate::digits::digit_char(x));
        assert(hex_digits_val(s.drop_last()) == Some(0int));
    } else {
        vstd::arithmetic::div_mod::lemma_div_decreases(x as int, 16);
        lemma_hex_digits(x / 16);
        lemma_hex_digit(x % 16);
        assert(s.drop_last() == digits(x / 16, 16));
        assert(s[0] == digits(x / 16, 16)[0]);
        assert(s.last() == crate::digits::digit_char(x % 16));
        assert(x == (x / 16) * 16 + x % 16) by (nonlinear_arith);
    }
}

/// Reading back the string form of an account ID gives that account ID.
pub proof fn lemma_account_id_roundtrip(id: u128)
    ensures
        account_id_of(account_id_text(id)) == Some(id),
{
    let t = account_id_text(id);
    lemma_hex_digits(id as nat);
    assert(t.skip(2) =~= digits(id as nat, 16));
}

impl AccountIDStringCodec for DefaultAccountIDStringCodec {
    fn encode_str(&self, account_id: &u128, out: &mut String) -> (r: Result<(), EncodeError>)
        ensures
            r is Ok,
            final(out)@ == old(out)@ + account_id_text(*account_id),
    {
        let text = self.encode_string(account_id);
        out.append(text.as_str());
        Ok(())
    }

    fn decode_str(&self, s: &str) -> (r: Result<u128, DecodeError>)
        ensures
            match account_id_of(s@) {
                Some(id) => r == Ok::<u128, DecodeError>(id),
                None => r == Err::<u128, DecodeError>(DecodeError::InvalidData),
            },
    {
        self.decode_string(s)
    }
}

} // verus!
