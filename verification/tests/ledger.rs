use ft_ledger::{AccountId, Event, Ledger, LedgerError, RegisterOutcome};

fn acct(name: &str) -> AccountId {
    AccountId::from_bytes(name.as_bytes().to_vec())
}

/// Sums every balance entry the ledger holds, walking its slots.
fn sum_balances(ledger: &Ledger) -> u128 {
    let mut sum: u128 = 0;
    for i in 0..ledger.account_count() {
        sum = sum.checked_add(ledger.balance_at(i)).expect("sum fits");
    }
    sum
}

// Storage basis used throughout: 16 bytes per entry at 2 per byte = 32.
const BYTES: u64 = 16;
const PRICE: u128 = 2;
const COST: u128 = 32;

fn ledger_with(accounts: &[(&str, u128)]) -> Ledger {
    let mut ledger = Ledger::new_empty(BYTES);
    for (name, balance) in accounts {
        let r = ledger.register(&acct(name), COST, PRICE);
        assert!(matches!(r, Ok(RegisterOutcome::Registered { refund: 0 })));
        if *balance > 0 {
            ledger.mint(&acct(name), *balance, None).expect("mint");
        }
    }
    ledger
}

#[test]
fn scenario_register_mint_transfer() {
    let a = acct("alice");
    let b = acct("bob");
    let mut ledger = Ledger::new_empty(BYTES);
    let r = ledger.register(&a, COST, PRICE).expect("register a");
    assert_eq!(r, RegisterOutcome::Registered { refund: 0 });
    ledger.mint(&a, 1000, None).expect("mint");
    ledger.register(&b, COST, PRICE).expect("register b");
    let ev = ledger.transfer(&a, &b, 300, None).expect("transfer");
    assert_eq!(ledger.balance_of(&a), 700);
    assert_eq!(ledger.balance_of(&b), 300);
    assert_eq!(ledger.total_supply(), 1000);
    match ev {
        Event::Transfer { sender, receiver, amount, memo } => {
            assert_eq!(sender, acct("alice"));
            assert_eq!(receiver, acct("bob"));
            assert_eq!(amount, 300);
            assert_eq!(memo, None);
        }
        other => panic!("expected a transfer event, got {:?}", other),
    }
}

#[test]
fn self_transfer_rejected() {
    let a = acct("alice");
    let mut ledger = ledger_with(&[("alice", 500)]);
    let r = ledger.transfer(&a, &a, 100, None);
    assert_eq!(r, Err(LedgerError::SelfTransfer));
    assert_eq!(ledger.balance_of(&a), 500);
    assert_eq!(ledger.total_supply(), 500);
}

#[test]
fn withdraw_more_than_balance_rejected() {
    let a = acct("alice");
    let mut ledger = ledger_with(&[("alice", 50)]);
    let r = ledger.withdraw(&a, 100);
    assert_eq!(r, Err(LedgerError::InsufficientBalance));
    assert_eq!(ledger.balance_of(&a), 50);
    assert_eq!(ledger.total_supply(), 50);
}

#[test]
fn conservation_after_each_operation() {
    let a = acct("alice");
    let b = acct("bob");
    let c = acct("carol");
    let mut ledger = Ledger::new_empty(BYTES);
    ledger.register(&a, COST, PRICE).expect("register a");
    assert_eq!(sum_balances(&ledger), ledger.total_supply());
    ledger.mint(&a, 1_000_000, None).expect("mint");
    assert_eq!(sum_balances(&ledger), ledger.total_supply());
    ledger.register(&b, COST + 5, PRICE).expect("register b");
    assert_eq!(sum_balances(&ledger), ledger.total_supply());
    ledger.register(&c, COST, PRICE).expect("register c");
    assert_eq!(sum_balances(&ledger), ledger.total_supply());
    ledger.transfer(&a, &b, 123_456, None).expect("a to b");
    assert_eq!(sum_balances(&ledger), ledger.total_supply());
    ledger.transfer(&b, &c, 456, None).expect("b to c");
    assert_eq!(sum_balances(&ledger), ledger.total_supply());
    ledger.transfer(&c, &a, 56, None).expect("c to a");
    assert_eq!(sum_balances(&ledger), ledger.total_supply());
    assert_eq!(ledger.total_supply(), 1_000_000);
}

#[test]
fn deposit_unregistered_fails() {
    let mut ledger = ledger_with(&[("alice", 10)]);
    let r = ledger.deposit(&acct("nobody"), 5);
    assert_eq!(r, Err(LedgerError::AccountNotRegistered(b"nobody".to_vec())));
    assert_eq!(ledger.total_supply(), 10);
}

#[test]
fn withdraw_unregistered_fails() {
    let mut ledger = ledger_with(&[("alice", 10)]);
    let r = ledger.withdraw(&acct("nobody"), 5);
    assert_eq!(r, Err(LedgerError::AccountNotRegistered(b"nobody".to_vec())));
}

#[test]
fn transfer_unregistered_sender_fails() {
    let a = acct("alice");
    let mut ledger = ledger_with(&[("alice", 10)]);
    let r = ledger.transfer(&acct("ghost"), &a, 5, None);
    assert_eq!(r, Err(LedgerError::AccountNotRegistered(b"ghost".to_vec())));
    assert_eq!(ledger.balance_of(&a), 10);
}

#[test]
fn transfer_unregistered_receiver_fails() {
    let a = acct("alice");
    let mut ledger = ledger_with(&[("alice", 10)]);
    let r = ledger.transfer(&a, &acct("ghost"), 5, None);
    assert_eq!(r, Err(LedgerError::AccountNotRegistered(b"ghost".to_vec())));
    assert_eq!(ledger.balance_of(&a), 10);
}

#[test]
fn mint_unregistered_fails() {
    let mut ledger = Ledger::new_empty(BYTES);
    let r = ledger.mint(&acct("nobody"), 5, None);
    assert_eq!(r, Err(LedgerError::AccountNotRegistered(b"nobody".to_vec())));
    assert_eq!(ledger.total_supply(), 0);
}

#[test]
fn register_then_deposit_succeeds() {
    let a = acct("alice");
    let mut ledger = Ledger::new_empty(BYTES);
    ledger.register(&a, COST, PRICE).expect("register");
    assert!(ledger.is_registered(&a));
    assert_eq!(ledger.balance_of(&a), 0);
    let r = ledger.deposit(&a, 500);
    assert_eq!(r, Ok(500));
    assert_eq!(ledger.balance_of(&a), 500);
}

#[test]
fn register_twice_is_idempotent() {
    let a = acct("alice");
    let mut ledger = ledger_with(&[("alice", 77)]);
    let count = ledger.account_count();
    let r = ledger.register(&a, 1234, PRICE);
    assert_eq!(r, Ok(RegisterOutcome::AlreadyRegistered { refund: 1234 }));
    assert_eq!(ledger.balance_of(&a), 77);
    assert_eq!(ledger.account_count(), count);
}

#[test]
fn register_insufficient_payment_fails() {
    let a = acct("alice");
    let mut ledger = Ledger::new_empty(BYTES);
    let r = ledger.register(&a, COST - 1, PRICE);
    assert_eq!(r, Err(LedgerError::InsufficientStoragePayment));
    assert!(!ledger.is_registered(&a));
}

#[test]
fn register_refunds_surplus() {
    let a = acct("alice");
    let mut ledger = Ledger::new_empty(BYTES);
    let r = ledger.register(&a, 100, PRICE);
    assert_eq!(r, Ok(RegisterOutcome::Registered { refund: 100 - COST }));
}

#[test]
fn register_unpriceable_cost_fails() {
    // Cost = bytes * price does not fit the balance width: no payment can
    // cover it.
    let a = acct("alice");
    let mut ledger = Ledger::new_empty(u64::MAX);
    let r = ledger.register(&a, u128::MAX, u128::MAX);
    assert_eq!(r, Err(LedgerError::InsufficientStoragePayment));
}

#[test]
fn deposit_overflow_is_fatal_and_changes_nothing() {
    let a = acct("alice");
    let mut ledger = Ledger::new_empty(BYTES);
    ledger.register(&a, COST, PRICE).expect("register");
    ledger.deposit(&a, u128::MAX).expect("first deposit");
    let r = ledger.deposit(&a, 1);
    assert_eq!(r, Err(LedgerError::BalanceOverflow));
    assert!(r.unwrap_err().is_fatal());
    assert_eq!(ledger.balance_of(&a), u128::MAX);
}

#[test]
fn mint_overflow_is_fatal_and_changes_nothing() {
    let a = acct("alice");
    let b = acct("bob");
    let mut ledger = Ledger::new_empty(BYTES);
    ledger.register(&a, COST, PRICE).expect("register a");
    ledger.register(&b, COST, PRICE).expect("register b");
    ledger.mint(&a, u128::MAX - 10, None).expect("first mint");
    let r = ledger.mint(&b, 11, None);
    assert_eq!(r, Err(LedgerError::BalanceOverflow));
    assert_eq!(ledger.balance_of(&a), u128::MAX - 10);
    assert_eq!(ledger.balance_of(&b), 0);
    assert_eq!(ledger.total_supply(), u128::MAX - 10);
}

#[test]
fn transfer_insufficient_is_atomic() {
    let a = acct("alice");
    let b = acct("bob");
    let mut ledger = ledger_with(&[("alice", 100), ("bob", 5)]);
    let r = ledger.transfer(&a, &b, 200, None);
    assert_eq!(r, Err(LedgerError::InsufficientBalance));
    assert_eq!(ledger.balance_of(&a), 100);
    assert_eq!(ledger.balance_of(&b), 5);
    assert_eq!(ledger.total_supply(), 105);
}

#[test]
fn transfer_zero_amount_rejected() {
    let a = acct("alice");
    let b = acct("bob");
    let mut ledger = ledger_with(&[("alice", 100), ("bob", 0)]);
    let r = ledger.transfer(&a, &b, 0, None);
    assert_eq!(r, Err(LedgerError::ZeroAmount));
    assert_eq!(ledger.balance_of(&a), 100);
}

#[test]
fn transfer_carries_memo_into_event() {
    let a = acct("alice");
    let b = acct("bob");
    let mut ledger = ledger_with(&[("alice", 100), ("bob", 0)]);
    let ev = ledger.transfer(&a, &b, 10, Some("rent".to_string())).expect("transfer");
    assert_eq!(
        ev,
        Event::Transfer {
            sender: acct("alice"),
            receiver: acct("bob"),
            amount: 10,
            memo: Some("rent".to_string()),
        }
    );
}

#[test]
fn unregister_unknown_fails() {
    let mut ledger = Ledger::new_empty(BYTES);
    let r = ledger.unregister(&acct("nobody"), false);
    assert_eq!(r, Err(LedgerError::NotRegistered));
}

#[test]
fn unregister_funded_without_force_fails() {
    let a = acct("alice");
    let mut ledger = ledger_with(&[("alice", 9)]);
    let r = ledger.unregister(&a, false);
    assert_eq!(r, Err(LedgerError::NonZeroBalance));
    assert!(ledger.is_registered(&a));
    assert_eq!(ledger.balance_of(&a), 9);
}

#[test]
fn unregister_forced_burns_balance() {
    let a = acct("alice");
    let b = acct("bob");
    let mut ledger = ledger_with(&[("alice", 100), ("bob", 900)]);
    let o = ledger.unregister(&a, true).expect("unregister");
    assert_eq!(o.burned, 100);
    assert_eq!(o.events.len(), 1);
    assert_eq!(
        o.events[0],
        Event::Burn { account: acct("alice"), amount: 100, memo: None }
    );
    assert!(!ledger.is_registered(&a));
    assert_eq!(ledger.total_supply(), 900);
    assert_eq!(ledger.balance_of(&b), 900);
    assert_eq!(sum_balances(&ledger), 900);
}

#[test]
fn unregister_empty_account_is_quiet() {
    let a = acct("alice");
    let mut ledger = ledger_with(&[("alice", 0)]);
    let o = ledger.unregister(&a, false).expect("unregister");
    assert_eq!(o.burned, 0);
    assert!(o.events.is_empty());
    assert!(!ledger.is_registered(&a));
}

#[test]
fn constructor_mints_initial_supply() {
    let owner = acct("owner");
    let (ledger, ev) = Ledger::new(acct("owner"), 1000, BYTES);
    assert_eq!(ledger.total_supply(), 1000);
    assert_eq!(ledger.balance_of(&owner), 1000);
    assert_eq!(ledger.account_count(), 1);
    assert_eq!(ledger.bytes_for_longest_account_id(), BYTES);
    assert_eq!(
        ev,
        Event::Mint {
            owner: acct("owner"),
            amount: 1000,
            memo: Some("Initial token supply is minted".to_string()),
        }
    );
}

#[test]
fn resolve_transfer_refunds_unused_amount() {
    let a = acct("alice");
    let b = acct("bob");
    let mut ledger = ledger_with(&[("alice", 1000), ("bob", 0)]);
    ledger.transfer(&a, &b, 300, None).expect("transfer");
    let o = ledger.resolve_transfer(&a, &b, 300, 100).expect("resolve");
    assert_eq!(o.refunded, 200);
    assert_eq!(o.shortfall, 0);
    assert_eq!(ledger.balance_of(&a), 900);
    assert_eq!(ledger.balance_of(&b), 100);
    assert_eq!(o.events.len(), 1);
    assert_eq!(
        o.events[0],
        Event::Transfer { sender: acct("bob"), receiver: acct("alice"), amount: 200, memo: None }
    );
}

#[test]
fn resolve_transfer_never_rolls_back_spent_funds() {
    let a = acct("alice");
    let b = acct("bob");
    let c = acct("carol");
    let mut ledger = ledger_with(&[("alice", 1000), ("bob", 0), ("carol", 0)]);
    ledger.transfer(&a, &b, 300, None).expect("transfer");
    // The receiver spends most of it before reporting that it used nothing.
    ledger.transfer(&b, &c, 250, None).expect("spend");
    let o = ledger.resolve_transfer(&a, &b, 300, 0).expect("resolve");
    assert_eq!(o.refunded, 50);
    assert_eq!(o.shortfall, 250);
    assert_eq!(ledger.balance_of(&a), 750);
    assert_eq!(ledger.balance_of(&b), 0);
    assert_eq!(ledger.balance_of(&c), 250);
    assert_eq!(ledger.total_supply(), 1000);
}

#[test]
fn resolve_transfer_with_everything_used_moves_nothing() {
    let a = acct("alice");
    let b = acct("bob");
    let mut ledger = ledger_with(&[("alice", 1000), ("bob", 0)]);
    ledger.transfer(&a, &b, 300, None).expect("transfer");
    // A used-amount report above what was sent counts as everything used.
    let o = ledger.resolve_transfer(&a, &b, 300, 400).expect("resolve");
    assert_eq!(o.refunded, 0);
    assert_eq!(o.shortfall, 0);
    assert!(o.events.is_empty());
    assert_eq!(ledger.balance_of(&a), 700);
    assert_eq!(ledger.balance_of(&b), 300);
}

#[test]
fn error_severity_is_tagged() {
    assert!(LedgerError::BalanceOverflow.is_fatal());
    assert!(LedgerError::InvariantViolation.is_fatal());
    assert!(!LedgerError::InsufficientBalance.is_fatal());
    assert!(!LedgerError::SelfTransfer.is_fatal());
    assert!(!LedgerError::AccountNotRegistered(b"a".to_vec()).is_fatal());
}
