//! Laws of the bank ledger.
use crate::bank::{
    account_key, balance_key, balance_of, burn_refusal, burned, denom_key, minted, send_one,
    supply_of, BankError, BankModel,
};
use crate::uint_map::value_at;
use vstd::bytes::{lemma_auto_spec_u128_to_from_le_bytes, spec_u128_from_le_bytes};
use vstd::prelude::*;
use vstd::utf8::encode_utf8_decode_utf8;

verus! {

/// Two balances are kept under the same key only if they are of the same account and the same
/// denomination.
pub proof fn lemma_balance_key_injective(a1: u128, d1: Seq<char>, a2: u128, d2: Seq<char>)
    requires
        balance_key(a1, d1) == balance_key(a2, d2),
    ensures
        a1 == a2,
        d1 == d2,
{
    lemma_auto_spec_u128_to_from_le_bytes();
    let k = balance_key(a1, d1);
    assert(account_key(a1).len() == 16 && account_key(a2).len() == 16);
    assert(k.subrange(0, 16) =~= account_key(a1));
    assert(balance_key(a2, d2).subrange(0, 16) =~= account_key(a2));
    assert(spec_u128_from_le_bytes(account_key(a1)) == a1);
    assert(spec_u128_from_le_bytes(account_key(a2)) == a2);
    assert(k.subrange(16, k.len() as int) =~= denom_key(d1));
    assert(balance_key(a2, d2).subrange(16, k.len() as int) =~= denom_key(d2));
    encode_utf8_decode_utf8(d1);
    encode_utf8_decode_utf8(d2);
}

/// Moving a coin takes its amount from the sender's balance of that denomination and adds it to
/// the recipient's; every other balance stays as it was.
pub proof fn lemma_send_one_moves(
    b: Map<Seq<u8>, int>,
    from: u128,
    to: u128,
    d: Seq<char>,
    amount: u128,
    a: u128,
    e: Seq<char>,
)
    requires
        send_one(b, from, to, d, amount) is Ok,
    ensures
        ({
            let b2 = send_one(b, from, to, d, amount)->Ok_0;
            let taken: int = if a == from && e == d {
                amount as int
            } else {
                0
            };
            let given: int = if a == to && e == d {
                amount as int
            } else {
                0
            };
            value_at(b2, balance_key(a, e)) == value_at(b, balance_key(a, e)) - taken + given
        }),
{
    let k = balance_key(a, e);
    if k == balance_key(from, d) {
        lemma_balance_key_injective(a, e, from, d);
    }
    if k == balance_key(to, d) {
        lemma_balance_key_injective(a, e, to, d);
    }
}

/// An account can burn what was just minted for it, and doing so leaves every balance and every
/// supply as it was before the mint.
pub proof fn lemma_mint_then_burn(m: BankModel, to: u128, d: Seq<char>, amount: u128, a: u128, e: Seq<char>)
    requires
        0 <= balance_of(m, to, d),
        0 <= supply_of(m, d),
        balance_of(m, to, d) + amount <= u128::MAX,
        supply_of(m, d) + amount <= u128::MAX,
    ensures
        burn_refusal(minted(m, to, d, amount), to, d, amount) is None,
        balance_of(burned(minted(m, to, d, amount), to, d, amount), a, e) == balance_of(m, a, e),
        supply_of(burned(minted(m, to, d, amount), to, d, amount), e) == supply_of(m, e),
{
}

/// Minting adds the same amount to the supply of a denomination and to the recipient's balance
/// of it; burning takes the same amount from both.
pub proof fn lemma_supply_follows_balances(m: BankModel, acct: u128, d: Seq<char>, amount: u128)
    requires
        amount <= balance_of(m, acct, d),
        amount <= supply_of(m, d),
    ensures
        supply_of(minted(m, acct, d, amount), d) - supply_of(m, d) == balance_of(
            minted(m, acct, d, amount),
            acct,
            d,
        ) - balance_of(m, acct, d),
        supply_of(m, d) - supply_of(burned(m, acct, d, amount), d) == balance_of(m, acct, d)
            - balance_of(burned(m, acct, d, amount), acct, d),
{
}

} // verus!
