//! A community pool that accounts take deposits into and whose admin spends from it.
use crate::bank::{denom_key, Coin};
use crate::uint_map::{value_at, UIntMap};
use vstd::prelude::*;

verus! {

/// The parameters of the pool.
#[derive(Clone, Copy, Debug, Default, PartialEq, Eq, Structural)]
pub struct PoolParams {
    /// Whether the admin may spend from the pool.
    pub spend_enabled: bool,
}

/// Emitted when a deposit is made.
#[derive(Clone, Copy, Debug)]
pub struct EventDeposit<'a> {
    /// The account that deposited.
    pub from: u128,
    /// The coin that was deposited.
    pub coin: Coin<'a>,
}

/// Emitted when the admin spends from the pool.
#[derive(Clone, Copy, Debug)]
pub struct EventSpend<'a> {
    /// The account that was spent to.
    pub to: u128,
    /// The coin that was spent.
    pub coin: Coin<'a>,
    /// The proposal the spend was made for.
    pub proposal_id: u64,
}

/// Why the bank refused a transfer.
#[derive(Clone, Copy, Debug, Default, PartialEq, Eq, Structural)]
pub enum SendError {
    /// The sender holds too little.
    #[default]
    InsufficientFunds,
    /// A hook blocked the transfer.
    SendBlocked,
}

/// A transfer the bank was asked for: from, to, and each coin's denomination and amount.
pub type TransferRequest = (u128, u128, Seq<(Seq<char>, u128)>);

/// A transfer the bank was asked for, with its answer.
pub type TransferRecord = (TransferRequest, Result<(), SendError>);

/// Transfers the bank was asked for with its answers, oldest first.
pub type Transfers = Seq<TransferRecord>;

/// What the pool answers after the bank answered `a`: success, or the bank's refusal.
pub open spec fn pool_answer(a: Result<(), SendError>) -> Result<(), PoolError> {
    match a {
        Ok(()) => Ok(()),
        Err(e) => Err(PoolError::Bank(e)),
    }
}

/// The answer the bank gave to the last transfer it was asked for.
pub open spec fn last_answer(ts: Transfers) -> Result<(), SendError> {
    ts.last().1
}

/// The denominations and amounts of coins.
pub open spec fn coins_model<'a>(coins: Seq<Coin<'a>>) -> Seq<(Seq<char>, u128)> {
    coins.map_values(|c: Coin<'a>| (c.denom@, c.amount))
}

/// The bank that moves the pool's tokens.
pub trait BankAPI {
    /// The transfers the bank was asked for so far, each with its answer, oldest first.
    spec fn transfers(&self) -> Transfers;

    /// Sends `amount` from the calling account `from` to `to`.
    fn send<'a>(&mut self, from: u128, to: u128, amount: &[Coin<'a>]) -> (r: Result<(), SendError>)
        ensures
            final(self).transfers() == old(self).transfers().push(((from, to, coins_model(amount@)), r)),
    ;
}

/// The transfer of one coin.
pub open spec fn one_coin<'a>(from: u128, to: u128, denom: &'a str, amount: u128) -> TransferRequest {
    (from, to, seq![(denom@, amount)])
}

/// Why the pool refused a request.
#[derive(Clone, Copy, Debug, PartialEq, Eq, Structural)]
pub enum PoolError {
    /// The caller is not the admin.
    NotAuthorized,
    /// Spending is disabled.
    SpendingDisabled,
    /// The pool holds less than the amount to spend.
    InsufficientFunds,
    /// The pool would hold more than the largest amount.
    Overflow,
    /// The bank refused the transfer.
    Bank(SendError),
}

/// What the pool holds.
pub struct PoolModel {
    /// The amount of each denomination the pool holds, by [`denom_key`].
    pub balances: Map<Seq<u8>, int>,
    /// The parameters.
    pub params: PoolParams,
    /// The account that may spend and set the parameters.
    pub admin: u128,
}

/// A community pool: how much of each denomination it holds, its parameters and its admin.
pub struct CommunityPool {
    pool_balance: UIntMap<u128>,
    params: PoolParams,
    admin: u128,
}

impl View for CommunityPool {
    type V = PoolModel;

    closed spec fn view(&self) -> PoolModel {
        PoolModel { balances: self.pool_balance.values(), params: self.params, admin: self.admin }
    }
}

/// How much of denomination `d` the pool holds: zero if it never held any.
pub open spec fn pool_balance_of(m: PoolModel, d: Seq<char>) -> int {
    value_at(m.balances, denom_key(d))
}

/// Whether the pool lets `caller` spend `amount` of `d`: spending is enabled, the caller is the
/// admin and the pool holds enough.
pub open spec fn spend_allowed(m: PoolModel, caller: u128, d: Seq<char>, amount: u128) -> bool {
    m.params.spend_enabled && m.admin == caller && amount <= pool_balance_of(m, d)
}

impl CommunityPool {
    /// The balance table is well formed.
    pub closed spec fn wf(&self) -> bool {
        self.pool_balance.wf()
    }

    /// An empty pool whose admin is `caller`, with spending enabled.
    pub fn create(caller: u128) -> (r: Self)
        ensures
            r.wf(),
            r@.balances == Map::<Seq<u8>, int>::empty(),
            r@.params == (PoolParams { spend_enabled: true }),
            r@.admin == caller,
    {
        CommunityPool {
            pool_balance: UIntMap::new(),
            params: PoolParams { spend_enabled: true },
            admin: caller,
        }
    }

    /// Replaces the parameters; only the admin may.
    pub fn set_params(&mut self, caller: u128, new_params: PoolParams) -> (r: Result<(), PoolError>)
        requires
            old(self).wf(),
        ensures
            final(self).wf(),
            match r {
                Ok(()) => old(self)@.admin == caller && final(self)@ == (PoolModel {
                    params: new_params,
                    ..old(self)@
                }),
                Err(e) => e == PoolError::NotAuthorized && old(self)@.admin != caller
                    && final(self)@ == old(self)@,
            },
    {
        if self.admin != caller {
            return Err(PoolError::NotAuthorized);
        }
        self.params = new_params;
        Ok(())
    }

    /// Deposits `amount` of `denom`: the pool account `self_id` asks the bank to send the coin to
    /// itself, and the pool counts it. Refused, with nothing counted, if the pool would hold more
    /// than the largest amount (the bank is then not asked) or if the bank refuses.
    pub fn deposit<'a, B: BankAPI>(
        &mut self,
        bank: &mut B,
        caller: u128,
        self_id: u128,
        denom: &'a str,
        amount: u128,
        evt: &mut Vec<EventDeposit<'a>>,
    ) -> (r: Result<(), PoolError>)
        requires
            old(self).wf(),
        ensures
            final(self).wf(),
            match r {
                Ok(()) => pool_balance_of(old(self)@, denom@) + amount <= u128::MAX && final(self)@
                    == (PoolModel {
                    balances: old(self)@.balances.insert(
                        denom_key(denom@),
                        pool_balance_of(old(self)@, denom@) + amount,
                    ),
                    ..old(self)@
                }) && final(evt)@ == old(evt)@.push(
                    EventDeposit { from: caller, coin: Coin { denom, amount } },
                ),
                Err(e) => final(self)@ == old(self)@ && final(evt)@ == old(evt)@ && (e is Bank || (e
                    == PoolError::Overflow && pool_balance_of(old(self)@, denom@) + amount
                    > u128::MAX)),
            },
            pool_balance_of(old(self)@, denom@) + amount <= u128::MAX ==> final(bank).transfers()
                == old(bank).transfers().push(
                (one_coin(self_id, self_id, denom, amount), last_answer(final(bank).transfers())),
            ) && r == pool_answer(last_answer(final(bank).transfers())),
            pool_balance_of(old(self)@, denom@) + amount > u128::MAX ==> r == Err::<(), PoolError>(
                PoolError::Overflow,
            ) && final(bank).transfers() == old(bank).transfers(),
    {
        let dkey = denom.as_bytes();
        let held = self.pool_balance.get(dkey);
        if held > u128::MAX - amount {
            return Err(PoolError::Overflow);
        }
        let coins = [Coin { denom, amount }];
        proof {
            assert(coins_model(coins@) =~= seq![(denom@, amount)]);
        }
        match bank.send(self_id, self_id, &coins) {
            Ok(()) => {},
            Err(e) => return Err(PoolError::Bank(e)),
        }
        let _ = self.pool_balance.add(dkey, amount);
        evt.push(EventDeposit { from: caller, coin: Coin { denom, amount } });
        Ok(())
    }

    /// Spends `amount` of `denom` to `to` for a proposal: the pool account `self_id` asks the
    /// bank to send the coin to `to`, and the pool counts it out. Only the admin may, only while
    /// spending is enabled, and only what the pool holds; refused, with nothing counted, if the
    /// bank refuses.
    pub fn spend<'a, B: BankAPI>(
        &mut self,
        bank: &mut B,
        caller: u128,
        self_id: u128,
        to: u128,
        denom: &'a str,
        amount: u128,
        proposal_id: u64,
        evt: &mut Vec<EventSpend<'a>>,
    ) -> (r: Result<(), PoolError>)
        requires
            old(self).wf(),
        ensures
            final(self).wf(),
            match r {
                Ok(()) => old(self)@.params.spend_enabled && old(self)@.admin == caller && amount
                    <= pool_balance_of(old(self)@, denom@) && final(self)@ == (PoolModel {
                    balances: old(self)@.balances.insert(
                        denom_key(denom@),
                        pool_balance_of(old(self)@, denom@) - amount,
                    ),
                    ..old(self)@
                }) && final(evt)@ == old(evt)@.push(
                    EventSpend { to, coin: Coin { denom, amount }, proposal_id },
                ),
                Err(e) => final(self)@ == old(self)@ && final(evt)@ == old(evt)@ && if !old(
                    self,
                )@.params.spend_enabled {
                    e == PoolError::SpendingDisabled
                } else if old(self)@.admin != caller {
                    e == PoolError::NotAuthorized
                } else if pool_balance_of(old(self)@, denom@) < amount {
                    e == PoolError::InsufficientFunds
                } else {
                    e is Bank
                },
            },
            spend_allowed(old(self)@, caller, denom@, amount) ==> final(bank).transfers() == old(
                bank,
            ).transfers().push((one_coin(self_id, to, denom, amount), last_answer(final(bank).transfers())))
                && r == pool_answer(last_answer(final(bank).transfers())),
            !spend_allowed(old(self)@, caller, denom@, amount) ==> final(bank).transfers() == old(
                bank,
            ).transfers(),
    {
        if !self.params.spend_enabled {
            return Err(PoolError::SpendingDisabled);
        }
        if self.admin != caller {
            return Err(PoolError::NotAuthorized);
        }
        let dkey = denom.as_bytes();
        if self.pool_balance.get(dkey) < amount {
            return Err(PoolError::InsufficientFunds);
        }
        let coins = [Coin { denom, amount }];
        proof {
            assert(coins_model(coins@) =~= seq![(denom@, amount)]);
        }
        match bank.send(self_id, to, &coins) {
            Ok(()) => {},
            Err(e) => return Err(PoolError::Bank(e)),
        }
        let _ = self.pool_balance.safe_sub(dkey, amount);
        evt.push(EventSpend { to, coin: Coin { denom, amount }, proposal_id });
        Ok(())
    }

    /// How much of `denom` the pool holds: zero if it never held any.
    pub fn get_balance(&self, denom: &str) -> (r: u128)
        requires
            self.wf(),
        ensures
            r == pool_balance_of(self@, denom@),
    {
        self.pool_balance.get(denom.as_bytes())
    }
}

} // verus!
