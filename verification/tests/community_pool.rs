use ixc_schema::bank::Coin;
use ixc_schema::community_pool::{BankAPI, CommunityPool, EventDeposit, EventSpend, PoolError, PoolParams, SendError, Transfers};

const ROOT: u128 = 1;
const ALICE: u128 = 2;
const POOL: u128 = 10;

/// A bank that records the transfers it is asked for.
#[derive(Default)]
struct MockBank {
    sends: Vec<(u128, u128, Vec<(String, u128)>)>,
    refuse: Option<SendError>,
}

impl BankAPI for MockBank {
    // The log of transfers exists only for the proofs; nothing reads it at run time.
    fn transfers(&self) -> Transfers {
        unreachable!()
    }

    fn send<'a>(&mut self, from: u128, to: u128, amount: &[Coin<'a>]) -> Result<(), SendError> {
        let coins = amount.iter().map(|c| (c.denom.to_string(), c.amount)).collect();
        self.sends.push((from, to, coins));
        match self.refuse {
            Some(e) => Err(e),
            None => Ok(()),
        }
    }
}

#[test]
fn test_community_pool_basic() {
    let mut bank = MockBank::default();
    let mut pool = CommunityPool::create(ROOT);

    let mut deposits: Vec<EventDeposit> = Vec::new();
    pool.deposit(&mut bank, ROOT, POOL, "atom", 1000, &mut deposits).unwrap();
    assert_eq!(pool.get_balance("atom"), 1000);
    // the bank is asked once, with the deposited coin
    assert_eq!(bank.sends.len(), 1);
    assert_eq!(bank.sends[0].2, vec![("atom".to_string(), 1000)]);

    let mut spends: Vec<EventSpend> = Vec::new();
    // only the admin can spend
    let result = pool.spend(&mut bank, ALICE, POOL, ALICE, "atom", 500, 1, &mut spends);
    assert!(result.is_err());

    pool.spend(&mut bank, ROOT, POOL, ALICE, "atom", 500, 1, &mut spends).unwrap();
    assert_eq!(pool.get_balance("atom"), 500);
}

#[test]
fn deposits_and_spends_are_recorded() {
    let mut bank = MockBank::default();
    let mut pool = CommunityPool::create(ROOT);
    let mut deposits: Vec<EventDeposit> = Vec::new();
    pool.deposit(&mut bank, ALICE, POOL, "atom", 30, &mut deposits).unwrap();
    assert_eq!(bank.sends[0].0, POOL);
    assert_eq!(bank.sends[0].1, POOL);
    assert_eq!(deposits.len(), 1);
    assert_eq!((deposits[0].from, deposits[0].coin.denom, deposits[0].coin.amount), (ALICE, "atom", 30));

    let mut spends: Vec<EventSpend> = Vec::new();
    assert_eq!(pool.spend(&mut bank, ROOT, POOL, ALICE, "atom", 31, 7, &mut spends), Err(PoolError::InsufficientFunds));
    assert_eq!(pool.spend(&mut bank, ROOT, POOL, ALICE, "atom", 30, 7, &mut spends), Ok(()));
    assert_eq!(bank.sends.last(), Some(&(POOL, ALICE, vec![("atom".to_string(), 30)])));
    assert_eq!(spends.len(), 1);
    assert_eq!((spends[0].to, spends[0].coin.amount, spends[0].proposal_id), (ALICE, 30, 7));
    assert_eq!(pool.get_balance("atom"), 0);
}

#[test]
fn refusals_change_nothing() {
    let mut bank = MockBank::default();
    let mut pool = CommunityPool::create(ROOT);
    let mut deposits: Vec<EventDeposit> = Vec::new();
    bank.refuse = Some(SendError::SendBlocked);
    assert_eq!(
        pool.deposit(&mut bank, ALICE, POOL, "atom", 30, &mut deposits),
        Err(PoolError::Bank(SendError::SendBlocked))
    );
    assert_eq!(pool.get_balance("atom"), 0);
    assert!(deposits.is_empty());

    bank.refuse = None;
    pool.deposit(&mut bank, ALICE, POOL, "atom", u128::MAX, &mut deposits).unwrap();
    let asked = bank.sends.len();
    assert_eq!(pool.deposit(&mut bank, ALICE, POOL, "atom", 1, &mut deposits), Err(PoolError::Overflow));
    assert_eq!(bank.sends.len(), asked);

    assert_eq!(pool.set_params(ALICE, PoolParams { spend_enabled: false }), Err(PoolError::NotAuthorized));
    assert_eq!(pool.set_params(ROOT, PoolParams { spend_enabled: false }), Ok(()));
    let mut spends: Vec<EventSpend> = Vec::new();
    assert_eq!(pool.spend(&mut bank, ROOT, POOL, ALICE, "atom", 1, 1, &mut spends), Err(PoolError::SpendingDisabled));
    assert_eq!(pool.get_balance("atom"), u128::MAX);
}
