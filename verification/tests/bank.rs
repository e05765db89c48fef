use ixc_schema::bank::{Bank, BankError, BurnHook, Coin, EventBurn, EventMint, EventSend, HookCalls, HookLog, ReceiveHook, SendHook};

const ROOT: u128 = 1;
const ALICE: u128 = 2;
const BOB: u128 = 3;
const CHARLIE: u128 = 4;
const DAVE: u128 = 5;
const HOOK: u128 = 99;

/// Hook accounts that count how often they are asked and refuse when told to.
#[derive(Default)]
struct Hooks {
    sends: Vec<(u128, u128, u128, String, u128)>,
    receives: Vec<(u128, u128, u128, String, u128)>,
    burns: Vec<(u128, u128, String, u128)>,
    refuse: bool,
}

impl HookLog for Hooks {
    // The log of questions exists only for the proofs; nothing reads it at run time.
    fn calls(&self) -> HookCalls {
        unreachable!()
    }
}

impl SendHook for Hooks {
    fn on_send(&mut self, hook: u128, from: u128, to: u128, denom: &str, amount: u128) -> Result<(), String> {
        self.sends.push((hook, from, to, denom.to_string(), amount));
        if self.refuse { Err("send refused".to_string()) } else { Ok(()) }
    }
}

impl ReceiveHook for Hooks {
    fn on_receive(&mut self, hook: u128, from: u128, to: u128, denom: &str, amount: u128) -> Result<(), String> {
        self.receives.push((hook, from, to, denom.to_string(), amount));
        if self.refuse { Err("receive refused".to_string()) } else { Ok(()) }
    }
}

impl BurnHook for Hooks {
    fn on_burn(&mut self, hook: u128, from: u128, denom: &str, amount: u128) -> Result<(), String> {
        self.burns.push((hook, from, denom.to_string(), amount));
        if self.refuse { Err("burn refused".to_string()) } else { Ok(()) }
    }
}

fn mint(bank: &mut Bank, hooks: &mut Hooks, caller: u128, to: u128, denom: &str, amount: u128) -> Result<(), BankError> {
    let mut evt: Vec<EventMint> = Vec::new();
    bank.mint(hooks, caller, to, denom, amount, &mut evt)
}

fn burn(bank: &mut Bank, hooks: &mut Hooks, caller: u128, denom: &str, amount: u128) -> Result<(), BankError> {
    let mut evt: Vec<EventBurn> = Vec::new();
    bank.burn(hooks, caller, denom, amount, &mut evt)
}

#[test]
fn test() {
    let mut bank = Bank::create(ROOT);
    let mut hooks = Hooks::default();
    bank.set_global_send_hook(ROOT, HOOK).unwrap();

    bank.create_denom("foo", ALICE).unwrap();
    mint(&mut bank, &mut hooks, ALICE, ALICE, "foo", 1000).unwrap();
    assert_eq!(bank.get_balance(ALICE, "foo"), 1000);

    let mut evt: Vec<EventSend> = Vec::new();
    bank.send(&mut hooks, ALICE, BOB, &[Coin { denom: "foo", amount: 100 }], &mut evt).unwrap();

    assert_eq!(bank.get_balance(ALICE, "foo"), 900);
    assert_eq!(bank.get_balance(BOB, "foo"), 100);
    assert_eq!(bank.get_balance(ALICE, "foo"), 900);
    assert_eq!(bank.get_supply("foo"), 1000);
    // the global send hook is asked exactly once
    assert_eq!(hooks.sends.len(), 1);
    assert_eq!(hooks.sends[0], (HOOK, ALICE, BOB, "foo".to_string(), 100));
    assert_eq!(evt.len(), 1);
    assert_eq!((evt[0].from, evt[0].to, evt[0].coin.denom, evt[0].coin.amount), (ALICE, BOB, "foo", 100));
}

#[test]
fn test_burn() {
    let mut bank = Bank::create(ROOT);
    let mut hooks = Hooks::default();
    bank.create_denom("foo", ALICE).unwrap();
    mint(&mut bank, &mut hooks, ALICE, BOB, "foo", 1000).unwrap();

    burn(&mut bank, &mut hooks, BOB, "foo", 300).unwrap();
    assert_eq!(bank.get_balance(BOB, "foo"), 700);
    assert_eq!(bank.get_supply("foo"), 700);

    let res = burn(&mut bank, &mut hooks, ALICE, "foo", 200);
    assert!(res.is_err());

    assert_eq!(bank.get_balance(BOB, "foo"), 700);
    assert_eq!(bank.get_supply("foo"), 700);
}

#[test]
fn test_mint_unauthorized() {
    let mut bank = Bank::create(ROOT);
    let mut hooks = Hooks::default();
    bank.create_denom("foo", ALICE).unwrap();

    let result = mint(&mut bank, &mut hooks, BOB, BOB, "foo", 1000);
    assert!(result.is_err());

    assert_eq!(bank.get_balance(BOB, "foo"), 0);
    assert_eq!(bank.get_supply("foo"), 0);
}

#[test]
fn test_mint_to_multiple_accounts() {
    let mut bank = Bank::create(ROOT);
    let mut hooks = Hooks::default();
    bank.create_denom("foo", ALICE).unwrap();

    mint(&mut bank, &mut hooks, ALICE, BOB, "foo", 100).unwrap();
    mint(&mut bank, &mut hooks, ALICE, CHARLIE, "foo", 200).unwrap();
    mint(&mut bank, &mut hooks, ALICE, DAVE, "foo", 300).unwrap();

    assert_eq!(bank.get_balance(BOB, "foo"), 100);
    assert_eq!(bank.get_balance(CHARLIE, "foo"), 200);
    assert_eq!(bank.get_balance(DAVE, "foo"), 300);
    assert_eq!(bank.get_supply("foo"), 600);
}

#[test]
fn admin_requests_are_checked() {
    let mut bank = Bank::create(ROOT);
    assert_eq!(bank.create_denom("foo", ALICE), Ok(()));
    assert_eq!(bank.create_denom("foo", BOB), Err(BankError::DenomExists));
    assert_eq!(bank.set_global_send_hook(ALICE, HOOK), Err(BankError::NotAuthorized));
    assert_eq!(bank.set_denom_send_hook(ALICE, "bar", HOOK), Err(BankError::DenomNotDefined));
    assert_eq!(bank.set_denom_send_hook(BOB, "foo", HOOK), Err(BankError::NotAuthorized));
    assert_eq!(bank.set_denom_burn_hook(BOB, "foo", HOOK), Err(BankError::NotAuthorized));
    assert_eq!(bank.set_denom_burn_hook(ALICE, "bar", HOOK), Err(BankError::DenomNotDefined));
    assert_eq!(bank.set_denom_send_hook(ALICE, "foo", HOOK), Ok(()));
    assert_eq!(bank.set_denom_burn_hook(ALICE, "foo", HOOK), Ok(()));
    let mut hooks = Hooks::default();
    assert_eq!(mint(&mut bank, &mut hooks, ALICE, ALICE, "bar", 1), Err(BankError::DenomNotDefined));
}

#[test]
fn a_refused_transfer_changes_nothing() {
    let mut bank = Bank::create(ROOT);
    let mut hooks = Hooks::default();
    bank.create_denom("foo", ALICE).unwrap();
    bank.create_denom("bar", ALICE).unwrap();
    mint(&mut bank, &mut hooks, ALICE, ALICE, "foo", 50).unwrap();
    mint(&mut bank, &mut hooks, ALICE, ALICE, "bar", 5).unwrap();

    // the second coin asks for more than alice holds: the first is not moved either
    let mut evt: Vec<EventSend> = Vec::new();
    let coins = [Coin { denom: "foo", amount: 20 }, Coin { denom: "bar", amount: 6 }];
    assert_eq!(bank.send(&mut hooks, ALICE, BOB, &coins, &mut evt), Err(BankError::InsufficientFunds));
    assert_eq!(bank.get_balance(ALICE, "foo"), 50);
    assert_eq!(bank.get_balance(BOB, "foo"), 0);
    assert!(evt.is_empty());

    // a refusing receive hook of bob stops the transfer
    bank.set_denom_recieve_hook(BOB, HOOK);
    hooks.refuse = true;
    let coins = [Coin { denom: "foo", amount: 20 }];
    assert_eq!(
        bank.send(&mut hooks, ALICE, BOB, &coins, &mut evt),
        Err(BankError::Hook("receive refused".to_string()))
    );
    assert_eq!(hooks.receives, vec![(HOOK, ALICE, BOB, "foo".to_string(), 20)]);
    assert_eq!(bank.get_balance(ALICE, "foo"), 50);
    assert!(evt.is_empty());

    // and a mint to bob
    assert_eq!(
        mint(&mut bank, &mut hooks, ALICE, BOB, "foo", 1),
        Err(BankError::Hook("receive refused".to_string()))
    );
    assert_eq!(bank.get_supply("foo"), 50);

    // once it lets them through, both coins move
    hooks.refuse = false;
    let coins = [Coin { denom: "foo", amount: 20 }, Coin { denom: "foo", amount: 30 }];
    assert_eq!(bank.send(&mut hooks, ALICE, BOB, &coins, &mut evt), Ok(()));
    assert_eq!(bank.get_balance(ALICE, "foo"), 0);
    assert_eq!(bank.get_balance(BOB, "foo"), 50);
    assert_eq!(evt.len(), 2);
}

#[test]
fn burn_hooks_and_overflow() {
    let mut bank = Bank::create(ROOT);
    let mut hooks = Hooks::default();
    bank.create_denom("foo", ALICE).unwrap();
    mint(&mut bank, &mut hooks, ALICE, BOB, "foo", u128::MAX).unwrap();
    assert_eq!(mint(&mut bank, &mut hooks, ALICE, CHARLIE, "foo", 1), Err(BankError::Overflow));
    assert_eq!(bank.get_balance(CHARLIE, "foo"), 0);

    bank.set_denom_burn_hook(ALICE, "foo", HOOK).unwrap();
    hooks.refuse = true;
    assert_eq!(burn(&mut bank, &mut hooks, BOB, "foo", 1), Err(BankError::Hook("burn refused".to_string())));
    assert_eq!(hooks.burns, vec![(HOOK, BOB, "foo".to_string(), 1)]);
    hooks.refuse = false;
    assert_eq!(burn(&mut bank, &mut hooks, BOB, "foo", 1), Ok(()));
    assert_eq!(bank.get_supply("foo"), u128::MAX - 1);
}

#[test]
fn minting_then_burning_restores_balance_and_supply() {
    let mut bank = Bank::create(ROOT);
    let mut hooks = Hooks::default();
    bank.create_denom("foo", ALICE).unwrap();
    mint(&mut bank, &mut hooks, ALICE, BOB, "foo", 40).unwrap();
    mint(&mut bank, &mut hooks, ALICE, CHARLIE, "foo", 7).unwrap();
    burn(&mut bank, &mut hooks, CHARLIE, "foo", 7).unwrap();
    assert_eq!(bank.get_balance(CHARLIE, "foo"), 0);
    assert_eq!(bank.get_balance(BOB, "foo"), 40);
    assert_eq!(bank.get_supply("foo"), 40);
}

#[test]
fn sending_to_oneself_keeps_the_balance() {
    let mut bank = Bank::create(ROOT);
    let mut hooks = Hooks::default();
    bank.create_denom("foo", ALICE).unwrap();
    mint(&mut bank, &mut hooks, ALICE, ALICE, "foo", 10).unwrap();
    let mut evt: Vec<EventSend> = Vec::new();
    bank.send(&mut hooks, ALICE, ALICE, &[Coin { denom: "foo", amount: 10 }], &mut evt).unwrap();
    assert_eq!(bank.get_balance(ALICE, "foo"), 10);
}
