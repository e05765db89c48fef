//! A ledger of token balances by account and denomination, with the total supply of each
//! denomination, the admin who may mint each denomination, and hook accounts that are asked
//! before tokens move and may refuse.
//!
//! A request either succeeds whole or changes nothing: when one step of it is refused, every
//! change it made before is undone and no event is kept.
pub mod laws;

use crate::table::Table;
use crate::uint_map::{value_at, UIntMap};
use vstd::bytes::{spec_u128_to_le_bytes, u128_to_le_bytes};
use vstd::prelude::*;
use vstd::utf8::encode_utf8;

verus! {

/// An amount of one denomination.
#[derive(Clone, Copy, Debug)]
pub struct Coin<'a> {
    /// The denomination.
    pub denom: &'a str,
    /// The amount.
    pub amount: u128,
}

/// Emitted when a coin is sent to another account.
#[derive(Clone, Copy, Debug)]
pub struct EventSend<'a> {
    /// The account that sent the coin.
    pub from: u128,
    /// The account that received the coin.
    pub to: u128,
    /// The coin that was sent.
    pub coin: Coin<'a>,
}

/// Emitted when a coin is minted for an account.
#[derive(Clone, Copy, Debug)]
pub struct EventMint<'a> {
    /// The account the coin was minted for.
    pub to: u128,
    /// The coin that was minted.
    pub coin: Coin<'a>,
}

/// Emitted when a coin is burned from an account.
#[derive(Clone, Copy, Debug)]
pub struct EventBurn<'a> {
    /// The account the coin was burned from.
    pub from: u128,
    /// The coin that was burned.
    pub coin: Coin<'a>,
}

/// Why the bank refused a request.
#[derive(Debug, Clone, PartialEq, Eq)]
pub enum BankError {
    /// The denomination already has an admin.
    DenomExists,
    /// The denomination has no admin.
    DenomNotDefined,
    /// The caller may not make this request.
    NotAuthorized,
    /// An account or the supply holds less than the amount to take from it.
    InsufficientFunds,
    /// An account or the supply would hold more than the largest amount.
    Overflow,
    /// A hook account refused, with its message.
    Hook(String),
}

/// A question put to a hook account.
pub enum HookCall {
    /// May `from` send `amount` of `denom` to `to`?
    Send { hook: u128, from: u128, to: u128, denom: Seq<char>, amount: u128 },
    /// May `to` receive `amount` of `denom` from `from`?
    Receive { hook: u128, from: u128, to: u128, denom: Seq<char>, amount: u128 },
    /// May `from` burn `amount` of `denom`?
    Burn { hook: u128, from: u128, denom: Seq<char>, amount: u128 },
}

/// Questions put to hook accounts, oldest first.
pub type HookCalls = Seq<HookCall>;

/// Hook accounts, as the questions they were asked.
pub trait HookLog {
    /// The questions put to the hook accounts so far, oldest first.
    spec fn calls(&self) -> HookCalls;
}

/// Asked before a coin is sent; an error refuses the transfer.
pub trait SendHook: HookLog {
    /// Whether the hook account `hook` lets `from` send `amount` of `denom` to `to`.
    fn on_send(
        &mut self,
        hook: u128,
        from: u128,
        to: u128,
        denom: &str,
        amount: u128,
    ) -> (r: Result<(), String>)
        ensures
            final(self).calls() == old(self).calls().push(
                HookCall::Send { hook, from, to, denom: denom@, amount },
            ),
    ;
}

/// Asked before a coin is burned; an error refuses the burn.
pub trait BurnHook: HookLog {
    /// Whether the hook account `hook` lets `from` burn `amount` of `denom`.
    fn on_burn(&mut self, hook: u128, from: u128, denom: &str, amount: u128) -> (r: Result<(), String>)
        ensures
            final(self).calls() == old(self).calls().push(HookCall::Burn { hook, from, denom: denom@, amount }),
    ;
}

/// Asked before an account receives a coin; an error refuses the transfer or mint.
pub trait ReceiveHook: HookLog {
    /// Whether the hook account `hook` lets `to` receive `amount` of `denom` from `from`.
    fn on_receive(
        &mut self,
        hook: u128,
        from: u128,
        to: u128,
        denom: &str,
        amount: u128,
    ) -> (r: Result<(), String>)
        ensures
            final(self).calls() == old(self).calls().push(
                HookCall::Receive { hook, from, to, denom: denom@, amount },
            ),
    ;
}

/// The key under which an account's hooks are kept: its identifier in little-endian bytes.
pub open spec fn account_key(a: u128) -> Seq<u8> {
    spec_u128_to_le_bytes(a)
}

/// The key under which a denomination's supply, admin and hooks are kept: its UTF-8 bytes.
pub open spec fn denom_key(d: Seq<char>) -> Seq<u8> {
    encode_utf8(d)
}

/// The key under which an account's balance of a denomination is kept.
pub open spec fn balance_key(a: u128, d: Seq<char>) -> Seq<u8> {
    account_key(a) + denom_key(d)
}

/// What the bank holds.
pub struct BankModel {
    /// The balances, by [`balance_key`].
    pub balances: Map<Seq<u8>, int>,
    /// The total supply of each denomination, by [`denom_key`].
    pub supply: Map<Seq<u8>, int>,
    /// The account that may set the global send hook.
    pub super_admin: u128,
    /// The account asked before every transfer; zero for none.
    pub global_send_hook: u128,
    /// The admin of each denomination, by [`denom_key`].
    pub denom_admins: Map<Seq<u8>, u128>,
    /// The account asked before a denomination is sent, by [`denom_key`].
    pub denom_send_hooks: Map<Seq<u8>, u128>,
    /// The account asked before a denomination is burned, by [`denom_key`].
    pub denom_burn_hooks: Map<Seq<u8>, u128>,
    /// The account asked before an account receives coins, by [`account_key`].
    pub receive_hooks: Map<Seq<u8>, u128>,
}

/// `m` with its balances replaced by `b` and its supply by `s`.
pub open spec fn with_amounts(m: BankModel, b: Map<Seq<u8>, int>, s: Map<Seq<u8>, int>) -> BankModel {
    BankModel {
        balances: b,
        supply: s,
        super_admin: m.super_admin,
        global_send_hook: m.global_send_hook,
        denom_admins: m.denom_admins,
        denom_send_hooks: m.denom_send_hooks,
        denom_burn_hooks: m.denom_burn_hooks,
        receive_hooks: m.receive_hooks,
    }
}

/// The balance of account `a` in denomination `d`: zero if it never held any.
pub open spec fn balance_of(m: BankModel, a: u128, d: Seq<char>) -> int {
    value_at(m.balances, balance_key(a, d))
}

/// The total supply of denomination `d`: zero if none was ever minted.
pub open spec fn supply_of(m: BankModel, d: Seq<char>) -> int {
    value_at(m.supply, denom_key(d))
}

/// Moving `amount` of `d` from `from` to `to` in the balances `b`: refused if `from` holds less,
/// or if `to` would then hold more than the largest amount.
pub open spec fn send_one(b: Map<Seq<u8>, int>, from: u128, to: u128, d: Seq<char>, amount: u128) -> Result<
    Map<Seq<u8>, int>,
    BankError,
> {
    let kf = balance_key(from, d);
    let f = value_at(b, kf);
    if f < amount {
        Err(BankError::InsufficientFunds)
    } else {
        let b1 = b.insert(kf, f - amount);
        let kt = balance_key(to, d);
        let t = value_at(b1, kt);
        if t + amount > u128::MAX {
            Err(BankError::Overflow)
        } else {
            Ok(b1.insert(kt, t + amount))
        }
    }
}

/// Moving each coin in turn from `from` to `to`: the first refusal, or the balances after the last.
pub open spec fn send_all<'a>(b: Map<Seq<u8>, int>, from: u128, to: u128, coins: Seq<Coin<'a>>) -> Result<
    Map<Seq<u8>, int>,
    BankError,
>
    decreases coins.len(),
{
    if coins.len() == 0 {
        Ok(b)
    } else {
        match send_all(b, from, to, coins.drop_last()) {
            Ok(b1) => send_one(b1, from, to, coins.last().denom@, coins.last().amount),
            Err(e) => Err(e),
        }
    }
}

/// The events of a transfer of `coins` from `from` to `to`, one per coin.
pub open spec fn send_events<'a>(from: u128, to: u128, coins: Seq<Coin<'a>>) -> Seq<EventSend<'a>> {
    coins.map_values(|c: Coin<'a>| EventSend { from, to, coin: c })
}

/// Whether some hook account is asked during a transfer of `coins` to `to`.
pub open spec fn send_hooked<'a>(m: BankModel, to: u128, coins: Seq<Coin<'a>>) -> bool {
    &&& coins.len() > 0
    &&& {
        ||| m.global_send_hook != 0
        ||| m.receive_hooks.contains_key(account_key(to))
        ||| exists|i: int|
            0 <= i < coins.len() && #[trigger] m.denom_send_hooks.contains_key(
                denom_key(coins[i].denom@),
            )
    }
}

/// The questions put before one coin moves from `from` to `to`: the global send hook, the
/// denomination's send hook and the receive hook of `to`, those that are set, in that order.
pub open spec fn coin_hook_calls<'a>(m: BankModel, from: u128, to: u128, c: Coin<'a>) -> Seq<HookCall> {
    let d = c.denom@;
    (if m.global_send_hook != 0 {
        seq![HookCall::Send { hook: m.global_send_hook, from, to, denom: d, amount: c.amount }]
    } else {
        Seq::empty()
    }) + (if m.denom_send_hooks.contains_key(denom_key(d)) {
        seq![HookCall::Send { hook: m.denom_send_hooks[denom_key(d)], from, to, denom: d, amount: c.amount }]
    } else {
        Seq::empty()
    }) + (if m.receive_hooks.contains_key(account_key(to)) {
        seq![HookCall::Receive { hook: m.receive_hooks[account_key(to)], from, to, denom: d, amount: c.amount }]
    } else {
        Seq::empty()
    })
}

/// The questions put during a transfer of `coins`, coin after coin.
pub open spec fn send_hook_calls<'a>(m: BankModel, from: u128, to: u128, coins: Seq<Coin<'a>>) -> Seq<HookCall>
    decreases coins.len(),
{
    if coins.len() == 0 {
        Seq::empty()
    } else {
        send_hook_calls(m, from, to, coins.drop_last()) + coin_hook_calls(m, from, to, coins.last())
    }
}

/// The question put before minting `amount` of `d` for `to`: the receive hook of `to`, if set.
pub open spec fn mint_hook_calls(m: BankModel, caller: u128, to: u128, d: Seq<char>, amount: u128) -> Seq<HookCall> {
    if m.receive_hooks.contains_key(account_key(to)) {
        seq![HookCall::Receive { hook: m.receive_hooks[account_key(to)], from: caller, to, denom: d, amount }]
    } else {
        Seq::empty()
    }
}

/// The question put before burning `amount` of `d` from `from`: the burn hook of `d`, if set.
pub open spec fn burn_hook_calls(m: BankModel, from: u128, d: Seq<char>, amount: u128) -> Seq<HookCall> {
    if m.denom_burn_hooks.contains_key(denom_key(d)) {
        seq![HookCall::Burn { hook: m.denom_burn_hooks[denom_key(d)], from, denom: d, amount }]
    } else {
        Seq::empty()
    }
}

/// The questions put for the first coins of a transfer come first among those for all of them.
proof fn lemma_send_calls_prefix<'a>(m: BankModel, from: u128, to: u128, coins: Seq<Coin<'a>>, n: int)
    requires
        0 <= n <= coins.len(),
    ensures
        send_hook_calls(m, from, to, coins.subrange(0, n)).len() <= send_hook_calls(m, from, to, coins).len(),
        send_hook_calls(m, from, to, coins).take(send_hook_calls(m, from, to, coins.subrange(0, n)).len() as int)
            == send_hook_calls(m, from, to, coins.subrange(0, n)),
    decreases coins.len(),
{
    if n == coins.len() {
        assert(coins.subrange(0, n) =~= coins);
        let p = send_hook_calls(m, from, to, coins);
        assert(p.take(p.len() as int) =~= p);
    } else {
        let front = coins.drop_last();
        lemma_send_calls_prefix(m, from, to, front, n);
        assert(front.subrange(0, n) =~= coins.subrange(0, n));
        let a = send_hook_calls(m, from, to, front);
        let b = coin_hook_calls(m, from, to, coins.last());
        let k = send_hook_calls(m, from, to, coins.subrange(0, n)).len() as int;
        assert((a + b).take(k) =~= a.take(k));
    }
}

/// The questions put up to the `j`th for coin `i` are the first of those for the whole
/// transfer.
proof fn lemma_send_calls_take<'a>(m: BankModel, from: u128, to: u128, coins: Seq<Coin<'a>>, i: int, j: int)
    requires
        0 <= i < coins.len(),
        0 <= j <= coin_hook_calls(m, from, to, coins[i]).len(),
    ensures
        ({
            let p = send_hook_calls(m, from, to, coins.subrange(0, i));
            let k = p.len() + j;
            &&& k <= send_hook_calls(m, from, to, coins).len()
            &&& send_hook_calls(m, from, to, coins).take(k) == p + coin_hook_calls(m, from, to, coins[i]).take(j)
        }),
{
    let p = send_hook_calls(m, from, to, coins.subrange(0, i));
    let q = coin_hook_calls(m, from, to, coins[i]);
    let s1 = coins.subrange(0, i + 1);
    assert(s1.drop_last() =~= coins.subrange(0, i));
    assert(s1.last() == coins[i]);
    lemma_send_calls_prefix(m, from, to, coins, i + 1);
    let all = send_hook_calls(m, from, to, coins);
    assert(send_hook_calls(m, from, to, s1) == p + q);
    assert(all.take(p.len() + j) =~= (p + q).take(p.len() + j));
    assert((p + q).take(p.len() + j) =~= p + q.take(j));
}

/// Why minting `amount` of `d` for `to` by `caller` is refused before any hook is asked, if it is.
pub open spec fn mint_refusal(m: BankModel, caller: u128, to: u128, d: Seq<char>, amount: u128) -> Option<
    BankError,
> {
    if !m.denom_admins.contains_key(denom_key(d)) {
        Some(BankError::DenomNotDefined)
    } else if m.denom_admins[denom_key(d)] != caller {
        Some(BankError::NotAuthorized)
    } else if supply_of(m, d) + amount > u128::MAX {
        Some(BankError::Overflow)
    } else if balance_of(m, to, d) + amount > u128::MAX {
        Some(BankError::Overflow)
    } else {
        None
    }
}

/// The bank after minting `amount` of `d` for `to`.
pub open spec fn minted(m: BankModel, to: u128, d: Seq<char>, amount: u128) -> BankModel {
    with_amounts(
        m,
        m.balances.insert(balance_key(to, d), balance_of(m, to, d) + amount),
        m.supply.insert(denom_key(d), supply_of(m, d) + amount),
    )
}

/// Why burning `amount` of `d` from `from` is refused once the hooks let it through, if it is.
pub open spec fn burn_refusal(m: BankModel, from: u128, d: Seq<char>, amount: u128) -> Option<BankError> {
    if balance_of(m, from, d) < amount || supply_of(m, d) < amount {
        Some(BankError::InsufficientFunds)
    } else {
        None
    }
}

/// The bank after burning `amount` of `d` from `from`.
pub open spec fn burned(m: BankModel, from: u128, d: Seq<char>, amount: u128) -> BankModel {
    with_amounts(
        m,
        m.balances.insert(balance_key(from, d), balance_of(m, from, d) - amount),
        m.supply.insert(denom_key(d), supply_of(m, d) - amount),
    )
}

/// A refusal part way through a transfer is the refusal of the whole transfer.
proof fn lemma_send_all_refusal_stays<'a>(
    b: Map<Seq<u8>, int>,
    from: u128,
    to: u128,
    coins: Seq<Coin<'a>>,
    k: int,
    e: BankError,
)
    requires
        0 <= k <= coins.len(),
        send_all(b, from, to, coins.subrange(0, k)) == Err::<Map<Seq<u8>, int>, BankError>(e),
    ensures
        send_all(b, from, to, coins) == Err::<Map<Seq<u8>, int>, BankError>(e),
    decreases coins.len() - k,
{
    if k < coins.len() {
        assert(coins.subrange(0, k + 1).drop_last() =~= coins.subrange(0, k));
        lemma_send_all_refusal_stays(b, from, to, coins, k + 1, e);
    } else {
        assert(coins.subrange(0, k) =~= coins);
    }
}

/// The bank: balances, supply, denomination admins and hook accounts.
pub struct Bank {
    balances: UIntMap<u128>,
    supply: UIntMap<u128>,
    super_admin: u128,
    global_send_hook: u128,
    denom_admins: Table<u128>,
    denom_send_hooks: Table<u128>,
    denom_burn_hooks: Table<u128>,
    receive_hooks: Table<u128>,
}

impl View for Bank {
    type V = BankModel;

    closed spec fn view(&self) -> BankModel {
        BankModel {
            balances: self.balances.values(),
            supply: self.supply.values(),
            super_admin: self.super_admin,
            global_send_hook: self.global_send_hook,
            denom_admins: self.denom_admins@,
            denom_send_hooks: self.denom_send_hooks@,
            denom_burn_hooks: self.denom_burn_hooks@,
            receive_hooks: self.receive_hooks@,
        }
    }
}

/// The key of `a`'s balance of `denom`.
fn make_balance_key(a: u128, denom: &str) -> (k: Vec<u8>)
    ensures
        k@ == balance_key(a, denom@),
{
    let mut k = u128_to_le_bytes(a);
    let b = denom.as_bytes();
    let ghost start = k@;
    let mut i: usize = 0;
    while i < b.len()
        invariant
            i <= b@.len(),
            k@ == start + b@.subrange(0, i as int),
        decreases b@.len() - i,
    {
        k.push(b[i]);
        i = i + 1;
        proof {
            assert(k@ =~= start + b@.subrange(0, i as int));
        }
    }
    proof {
        assert(b@.subrange(0, b@.len() as int) =~= b@);
    }
    k
}

impl Bank {
    /// The tables are well formed.
    pub closed spec fn wf(&self) -> bool {
        &&& self.balances.wf()
        &&& self.supply.wf()
        &&& self.denom_admins.wf()
        &&& self.denom_send_hooks.wf()
        &&& self.denom_burn_hooks.wf()
        &&& self.receive_hooks.wf()
    }

    /// A bank with no balances, denominations or hooks, whose super admin is `caller`.
    pub fn create(caller: u128) -> (r: Self)
        ensures
            r.wf(),
            r@.balances == Map::<Seq<u8>, int>::empty(),
            r@.supply == Map::<Seq<u8>, int>::empty(),
            r@.super_admin == caller,
            r@.global_send_hook == 0,
            r@.denom_admins == Map::<Seq<u8>, u128>::empty(),
            r@.denom_send_hooks == Map::<Seq<u8>, u128>::empty(),
            r@.denom_burn_hooks == Map::<Seq<u8>, u128>::empty(),
            r@.receive_hooks == Map::<Seq<u8>, u128>::empty(),
    {
        Bank {
            balances: UIntMap::new(),
            supply: UIntMap::new(),
            super_admin: caller,
            global_send_hook: 0,
            denom_admins: Table::new(),
            denom_send_hooks: Table::new(),
            denom_burn_hooks: Table::new(),
            receive_hooks: Table::new(),
        }
    }

    /// Makes `admin` the admin of `denom`; refused if the denomination already has one.
    pub fn create_denom(&mut self, denom: &str, admin: u128) -> (r: Result<(), BankError>)
        requires
            old(self).wf(),
        ensures
            final(self).wf(),
            match r {
                Ok(()) => !old(self)@.denom_admins.contains_key(denom_key(denom@))
                    && final(self)@ == (BankModel {
                    denom_admins: old(self)@.denom_admins.insert(denom_key(denom@), admin),
                    ..old(self)@
                }),
                Err(e) => e == BankError::DenomExists && old(self)@.denom_admins.contains_key(
                    denom_key(denom@),
                ) && final(self)@ == old(self)@,
            },
    {
        let key = denom.as_bytes();
        if self.denom_admins.get(key).is_some() {
            return Err(BankError::DenomExists);
        }
        self.denom_admins.set(key, admin);
        Ok(())
    }

    /// Makes `hook` the account asked before every transfer; only the super admin may.
    pub fn set_global_send_hook(&mut self, caller: u128, hook: u128) -> (r: Result<(), BankError>)
        requires
            old(self).wf(),
        ensures
            final(self).wf(),
            match r {
                Ok(()) => old(self)@.super_admin == caller && final(self)@ == (BankModel {
                    global_send_hook: hook,
                    ..old(self)@
                }),
                Err(e) => e == BankError::NotAuthorized && old(self)@.super_admin != caller
                    && final(self)@ == old(self)@,
            },
    {
        if self.super_admin != caller {
            return Err(BankError::NotAuthorized);
        }
        self.global_send_hook = hook;
        Ok(())
    }

    /// Makes `hook` the account asked before `denom` is sent; only the denomination's admin may.
    pub fn set_denom_send_hook(&mut self, caller: u128, denom: &str, hook: u128) -> (r: Result<
        (),
        BankError,
    >)
        requires
            old(self).wf(),
        ensures
            final(self).wf(),
            match r {
                Ok(()) => old(self)@.denom_admins.contains_key(denom_key(denom@))
                    && old(self)@.denom_admins[denom_key(denom@)] == caller && final(self)@ == (
                BankModel {
                    denom_send_hooks: old(self)@.denom_send_hooks.insert(denom_key(denom@), hook),
                    ..old(self)@
                }),
                Err(e) => final(self)@ == old(self)@ && if !old(self)@.denom_admins.contains_key(
                    denom_key(denom@),
                ) {
                    e == BankError::DenomNotDefined
                } else {
                    e == BankError::NotAuthorized && old(self)@.denom_admins[denom_key(denom@)]
                        != caller
                },
            },
    {
        let key = denom.as_bytes();
        match self.denom_admins.get(key) {
            None => Err(BankError::DenomNotDefined),
            Some(admin) => {
                if admin != caller {
                    return Err(BankError::NotAuthorized);
                }
                self.denom_send_hooks.set(key, hook);
                Ok(())
            },
        }
    }

    /// Makes `hook` the account asked before `caller` receives coins.
    pub fn set_denom_recieve_hook(&mut self, caller: u128, hook: u128)
        requires
            old(self).wf(),
        ensures
            final(self).wf(),
            final(self)@ == (BankModel {
                receive_hooks: old(self)@.receive_hooks.insert(account_key(caller), hook),
                ..old(self)@
            }),
    {
        let key = u128_to_le_bytes(caller);
        self.receive_hooks.set(key.as_slice(), hook);
    }

    /// Makes `hook` the account asked before `denom` is burned; only the denomination's admin may.
    pub fn set_denom_burn_hook(&mut self, caller: u128, denom: &str, hook: u128) -> (r: Result<
        (),
        BankError,
    >)
        requires
            old(self).wf(),
        ensures
            final(self).wf(),
            match r {
                Ok(()) => old(self)@.denom_admins.contains_key(denom_key(denom@))
                    && old(self)@.denom_admins[denom_key(denom@)] == caller && final(self)@ == (
                BankModel {
                    denom_burn_hooks: old(self)@.denom_burn_hooks.insert(denom_key(denom@), hook),
                    ..old(self)@
                }),
                Err(e) => final(self)@ == old(self)@ && if !old(self)@.denom_admins.contains_key(
                    denom_key(denom@),
                ) {
                    e == BankError::DenomNotDefined
                } else {
                    e == BankError::NotAuthorized && old(self)@.denom_admins[denom_key(denom@)]
                        != caller
                },
            },
    {
        let key = denom.as_bytes();
        match self.denom_admins.get(key) {
            None => Err(BankError::DenomNotDefined),
            Some(admin) => {
                if admin != caller {
                    return Err(BankError::NotAuthorized);
                }
                self.denom_burn_hooks.set(key, hook);
                Ok(())
            },
        }
    }

    /// The balance of `account` in `denom`: zero if it never held any.
    pub fn get_balance(&self, account: u128, denom: &str) -> (r: u128)
        requires
            self.wf(),
        ensures
            r == balance_of(self@, account, denom@),
    {
        let key = make_balance_key(account, denom);
        self.balances.get(key.as_slice())
    }

    /// The total supply of `denom`: zero if none was ever minted.
    pub fn get_supply(&self, denom: &str) -> (r: u128)
        requires
            self.wf(),
        ensures
            r == supply_of(self@, denom@),
    {
        self.supply.get(denom.as_bytes())
    }

    /// Sends each coin in turn from the caller to `to`. Before each coin the global send hook,
    /// the denomination's send hook and the receive hook of `to` are asked, those that are set,
    /// in that order. Refused whole if a hook refuses, if the caller holds too little, or if
    /// `to` would hold more than the largest amount.
    pub fn send<'a, H: SendHook + ReceiveHook>(
        &mut self,
        hooks: &mut H,
        caller: u128,
        to: u128,
        amount: &[Coin<'a>],
        evt: &mut Vec<EventSend<'a>>,
    ) -> (r: Result<(), BankError>)
        requires
            old(self).wf(),
        ensures
            final(self).wf(),
            match r {
                Ok(()) => send_all(old(self)@.balances, caller, to, amount@) == Ok::<
                    Map<Seq<u8>, int>,
                    BankError,
                >(final(self)@.balances) && final(self)@ == (BankModel {
                    balances: final(self)@.balances,
                    ..old(self)@
                }) && final(evt)@ == old(evt)@ + send_events(caller, to, amount@),
                Err(e) => final(self)@ == old(self)@ && final(evt)@ == old(evt)@ && (e is Hook
                    || send_all(old(self)@.balances, caller, to, amount@) == Err::<
                    Map<Seq<u8>, int>,
                    BankError,
                >(e)),
            },
            !send_hooked(old(self)@, to, amount@) ==> (r is Ok <==> send_all(
                old(self)@.balances,
                caller,
                to,
                amount@,
            ) is Ok),
            (r matches Err(BankError::Hook(_))) ==> send_hooked(old(self)@, to, amount@),
            r is Ok ==> final(hooks).calls() == old(hooks).calls() + send_hook_calls(old(self)@, caller, to, amount@),
            exists|k: int|
                0 <= k <= send_hook_calls(old(self)@, caller, to, amount@).len() && final(hooks).calls() == old(
                    hooks,
                ).calls() + #[trigger] send_hook_calls(old(self)@, caller, to, amount@).take(k),
            (r matches Err(BankError::Hook(_))) ==> exists|i: int, j: int|
                0 <= i < amount@.len() && 0 < j <= coin_hook_calls(old(self)@, caller, to, amount@[i]).len()
                    && send_all(old(self)@.balances, caller, to, amount@.subrange(0, i)) is Ok
                    && final(hooks).calls() == old(hooks).calls() + #[trigger] send_hook_calls(
                    old(self)@,
                    caller,
                    to,
                    amount@.subrange(0, i),
                ) + #[trigger] coin_hook_calls(old(self)@, caller, to, amount@[i]).take(j),
            r matches Err(e) ==> e is Hook || exists|n: int|
                0 < n <= amount@.len() && send_all(old(self)@.balances, caller, to, amount@.subrange(0, n - 1)) is Ok
                    && send_all(old(self)@.balances, caller, to, amount@.subrange(0, n)) == Err::<
                    Map<Seq<u8>, int>,
                    BankError,
                >(e) && final(hooks).calls() == old(hooks).calls() + #[trigger] send_hook_calls(
                    old(self)@,
                    caller,
                    to,
                    amount@.subrange(0, n),
                ),
    {
        let ghost orig = self@;
        let ghost evt0 = evt@;
        let ghost calls0 = hooks.calls();
        let global = self.global_send_hook;
        let tkey = u128_to_le_bytes(to);
        let recv = self.receive_hooks.get(tkey.as_slice());
        let mut work = self.balances.copy();
        let mut events: Vec<EventSend<'a>> = Vec::new();
        let mut i: usize = 0;
        while i < amount.len()
            invariant
                self.wf(),
                self@ == orig,
                orig == old(self)@,
                evt@ == evt0,
                evt0 == old(evt)@,
                global == orig.global_send_hook,
                recv == (if orig.receive_hooks.contains_key(account_key(to)) {
                    Some(orig.receive_hooks[account_key(to)])
                } else {
                    None::<u128>
                }),
                work.wf(),
                i <= amount@.len(),
                send_all(orig.balances, caller, to, amount@.subrange(0, i as int)) == Ok::<
                    Map<Seq<u8>, int>,
                    BankError,
                >(work.values()),
                events@ == send_events(caller, to, amount@.subrange(0, i as int)),
                calls0 == old(hooks).calls(),
                hooks.calls() == calls0 + send_hook_calls(orig, caller, to, amount@.subrange(0, i as int)),
            decreases amount@.len() - i,
        {
            let c = amount[i];
            let ghost pc = send_hook_calls(orig, caller, to, amount@.subrange(0, i as int));
            let ghost q = coin_hook_calls(orig, caller, to, amount@[i as int]);
            let ghost all = send_hook_calls(orig, caller, to, amount@);
            let ghost mut j: int = 0;
            proof {
                assert(c == amount@[i as int]);
                assert(q.take(0) =~= Seq::<HookCall>::empty());
                assert(hooks.calls() =~= calls0 + pc + q.take(j));
            }
            if global != 0 {
                let res = hooks.on_send(global, caller, to, c.denom, c.amount);
                proof {
                    assert(q[j] == HookCall::Send { hook: global, from: caller, to, denom: c.denom@, amount: c.amount });
                    assert(q.take(j + 1) =~= q.take(j).push(q[j]));
                    j = j + 1;
                    assert(hooks.calls() =~= calls0 + pc + q.take(j));
                }
                match res {
                    Ok(()) => {},
                    Err(msg) => {
                        proof {
                            lemma_send_calls_take(orig, caller, to, amount@, i as int, j);
                            assert(hooks.calls() =~= calls0 + all.take(pc.len() + j));
                            assert(hooks.calls() == calls0 + pc + q.take(j));
                        }
                        return Err(BankError::Hook(msg));
                    },
                }
            }
            match self.denom_send_hooks.get(c.denom.as_bytes()) {
                Some(h) => {
                    let res = hooks.on_send(h, caller, to, c.denom, c.amount);
                    proof {
                        assert(q[j] == HookCall::Send { hook: h, from: caller, to, denom: c.denom@, amount: c.amount });
                        assert(q.take(j + 1) =~= q.take(j).push(q[j]));
                        j = j + 1;
                        assert(hooks.calls() =~= calls0 + pc + q.take(j));
                    }
                    match res {
                        Ok(()) => {},
                        Err(msg) => {
                            proof {
                                assert(orig.denom_send_hooks.contains_key(
                                    denom_key(amount@[i as int].denom@),
                                ));
                                lemma_send_calls_take(orig, caller, to, amount@, i as int, j);
                                assert(hooks.calls() =~= calls0 + all.take(pc.len() + j));
                                assert(hooks.calls() == calls0 + pc + q.take(j));
                            }
                            return Err(BankError::Hook(msg));
                        },
                    }
                },
                None => {},
            }
            match recv {
                Some(h) => {
                    let res = hooks.on_receive(h, caller, to, c.denom, c.amount);
                    proof {
                        assert(q[j] == HookCall::Receive { hook: h, from: caller, to, denom: c.denom@, amount: c.amount });
                        assert(q.take(j + 1) =~= q.take(j).push(q[j]));
                        j = j + 1;
                        assert(hooks.calls() =~= calls0 + pc + q.take(j));
                    }
                    match res {
                        Ok(()) => {},
                        Err(msg) => {
                            proof {
                                lemma_send_calls_take(orig, caller, to, amount@, i as int, j);
                                assert(hooks.calls() =~= calls0 + all.take(pc.len() + j));
                                assert(hooks.calls() == calls0 + pc + q.take(j));
                            }
                            return Err(BankError::Hook(msg));
                        },
                    }
                },
                None => {},
            }
            proof {
                assert(j == q.len());
                assert(q.take(j) =~= q);
                lemma_send_calls_take(orig, caller, to, amount@, i as int, j);
            }
            let ghost before = work.values();
            let ghost p = amount@.subrange(0, i + 1);
            proof {
                assert(p.drop_last() =~= amount@.subrange(0, i as int));
                assert(p.last() == amount@[i as int]);
            }
            let kf = make_balance_key(caller, c.denom);
            match work.safe_sub(kf.as_slice(), c.amount) {
                Ok(_) => {},
                Err(_) => {
                    proof {
                        lemma_send_all_refusal_stays(
                            orig.balances,
                            caller,
                            to,
                            amount@,
                            i + 1,
                            BankError::InsufficientFunds,
                        );
                        assert(hooks.calls() =~= calls0 + all.take(pc.len() + j));
                        assert(p.subrange(0, i as int) =~= amount@.subrange(0, i as int));
                        assert(amount@.subrange(0, i + 1 - 1) =~= amount@.subrange(0, i as int));
                        assert(hooks.calls() =~= calls0 + send_hook_calls(orig, caller, to, p));
                    }
                    return Err(BankError::InsufficientFunds);
                },
            }
            let kt = make_balance_key(to, c.denom);
            match work.add(kt.as_slice(), c.amount) {
                Ok(_) => {},
                Err(_) => {
                    proof {
                        lemma_send_all_refusal_stays(
                            orig.balances,
                            caller,
                            to,
                            amount@,
                            i + 1,
                            BankError::Overflow,
                        );
                        assert(hooks.calls() =~= calls0 + all.take(pc.len() + j));
                        assert(p.subrange(0, i as int) =~= amount@.subrange(0, i as int));
                        assert(amount@.subrange(0, i + 1 - 1) =~= amount@.subrange(0, i as int));
                        assert(hooks.calls() =~= calls0 + send_hook_calls(orig, caller, to, p));
                    }
                    return Err(BankError::Overflow);
                },
            }
            events.push(EventSend { from: caller, to, coin: c });
            proof {
                assert(events@ =~= send_events(caller, to, p));
                let s1 = amount@.subrange(0, i + 1);
                assert(s1.drop_last() =~= amount@.subrange(0, i as int));
                assert(s1.last() == amount@[i as int]);
                assert(hooks.calls() =~= calls0 + send_hook_calls(orig, caller, to, s1));
            }
            i = i + 1;
        }
        proof {
            assert(amount@.subrange(0, amount@.len() as int) =~= amount@);
            let all = send_hook_calls(orig, caller, to, amount@);
            assert(all.take(all.len() as int) =~= all);
        }
        self.balances = work;
        evt.append(&mut events);
        Ok(())
    }

    /// Mints `amount` of `denom` for `to`. Only the denomination's admin may; refused if the
    /// supply or the balance would exceed the largest amount, or if the receive hook of `to`
    /// refuses.
    pub fn mint<'a, H: ReceiveHook>(
        &mut self,
        hooks: &mut H,
        caller: u128,
        to: u128,
        denom: &'a str,
        amount: u128,
        evt: &mut Vec<EventMint<'a>>,
    ) -> (r: Result<(), BankError>)
        requires
            old(self).wf(),
        ensures
            final(self).wf(),
            match r {
                Ok(()) => mint_refusal(old(self)@, caller, to, denom@, amount) is None
                    && final(self)@ == minted(old(self)@, to, denom@, amount) && final(evt)@ == old(
                    evt,
                )@.push(EventMint { to, coin: Coin { denom, amount } }),
                Err(e) => final(self)@ == old(self)@ && final(evt)@ == old(evt)@ && (mint_refusal(
                    old(self)@,
                    caller,
                    to,
                    denom@,
                    amount,
                ) == Some(e) || (mint_refusal(old(self)@, caller, to, denom@, amount) is None
                    && e is Hook && old(self)@.receive_hooks.contains_key(account_key(to)))),
            },
            mint_refusal(old(self)@, caller, to, denom@, amount) is None
                && !old(self)@.receive_hooks.contains_key(account_key(to)) ==> r is Ok,
            r is Ok ==> final(hooks).calls() == old(hooks).calls() + mint_hook_calls(old(self)@, caller, to, denom@, amount),
            final(hooks).calls() == old(hooks).calls() || final(hooks).calls() == old(hooks).calls()
                + mint_hook_calls(old(self)@, caller, to, denom@, amount),
            mint_refusal(old(self)@, caller, to, denom@, amount) is Some ==> final(hooks).calls() == old(
                hooks,
            ).calls(),
    {
        let dkey = denom.as_bytes();
        let admin = match self.denom_admins.get(dkey) {
            None => return Err(BankError::DenomNotDefined),
            Some(a) => a,
        };
        if admin != caller {
            return Err(BankError::NotAuthorized);
        }
        let sup = self.supply.get(dkey);
        if sup > u128::MAX - amount {
            return Err(BankError::Overflow);
        }
        let bkey = make_balance_key(to, denom);
        let bal = self.balances.get(bkey.as_slice());
        if bal > u128::MAX - amount {
            return Err(BankError::Overflow);
        }
        let tkey = u128_to_le_bytes(to);
        match self.receive_hooks.get(tkey.as_slice()) {
            Some(h) => match hooks.on_receive(h, caller, to, denom, amount) {
                Ok(()) => {},
                Err(msg) => return Err(BankError::Hook(msg)),
            },
            None => {},
        }
        let _ = self.supply.add(dkey, amount);
        let _ = self.balances.add(bkey.as_slice(), amount);
        evt.push(EventMint { to, coin: Coin { denom, amount } });
        Ok(())
    }

    /// Burns `amount` of `denom` from the caller's balance and from the supply; refused if the
    /// denomination's burn hook refuses, or if the balance or the supply holds less.
    pub fn burn<'a, H: BurnHook>(
        &mut self,
        hooks: &mut H,
        caller: u128,
        denom: &'a str,
        amount: u128,
        evt: &mut Vec<EventBurn<'a>>,
    ) -> (r: Result<(), BankError>)
        requires
            old(self).wf(),
        ensures
            final(self).wf(),
            match r {
                Ok(()) => burn_refusal(old(self)@, caller, denom@, amount) is None && final(self)@
                    == burned(old(self)@, caller, denom@, amount) && final(evt)@ == old(evt)@.push(
                    EventBurn { from: caller, coin: Coin { denom, amount } },
                ),
                Err(e) => final(self)@ == old(self)@ && final(evt)@ == old(evt)@ && (burn_refusal(
                    old(self)@,
                    caller,
                    denom@,
                    amount,
                ) == Some(e) || (e is Hook && old(self)@.denom_burn_hooks.contains_key(
                    denom_key(denom@),
                ))),
            },
            !old(self)@.denom_burn_hooks.contains_key(denom_key(denom@)) ==> (r is Ok
                <==> burn_refusal(old(self)@, caller, denom@, amount) is None),
            r is Ok ==> final(hooks).calls() == old(hooks).calls() + burn_hook_calls(old(self)@, caller, denom@, amount),
            final(hooks).calls() == old(hooks).calls() || final(hooks).calls() == old(hooks).calls()
                + burn_hook_calls(old(self)@, caller, denom@, amount),
            r matches Err(e) ==> e is Hook || final(hooks).calls() == old(hooks).calls() + burn_hook_calls(
                old(self)@,
                caller,
                denom@,
                amount,
            ),
    {
        let dkey = denom.as_bytes();
        match self.denom_burn_hooks.get(dkey) {
            Some(h) => match hooks.on_burn(h, caller, denom, amount) {
                Ok(()) => {},
                Err(msg) => return Err(BankError::Hook(msg)),
            },
            None => {},
        }
        let bkey = make_balance_key(caller, denom);
        let bal = self.balances.get(bkey.as_slice());
        if bal < amount {
            return Err(BankError::InsufficientFunds);
        }
        let sup = self.supply.get(dkey);
        if sup < amount {
            return Err(BankError::InsufficientFunds);
        }
        let _ = self.balances.safe_sub(bkey.as_slice(), amount);
        let _ = self.supply.safe_sub(dkey, amount);
        evt.push(EventBurn { from: caller, coin: Coin { denom, amount } });
        Ok(())
    }
}

} // verus!
