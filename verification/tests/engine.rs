use payments::transaction::ReportRow;
use payments::{Account, Amount, Error, Transaction, TransactionEngine, Type};

fn deposit(client: u16, tx: u32, amount: Amount) -> Transaction {
    Transaction { type_: Type::Deposit, client, tx, amount: Some(amount), disputed: false }
}

fn withdrawal(client: u16, tx: u32, amount: Amount) -> Transaction {
    Transaction { type_: Type::Withdrawal, client, tx, amount: Some(amount), disputed: false }
}

fn dispute(client: u16, tx: u32) -> Transaction {
    Transaction { type_: Type::Dispute, client, tx, amount: None, disputed: false }
}

fn resolve(client: u16, tx: u32) -> Transaction {
    Transaction { type_: Type::Resolve, client, tx, amount: None, disputed: false }
}

fn chargeback(client: u16, tx: u32) -> Transaction {
    Transaction { type_: Type::Chargeback, client, tx, amount: None, disputed: false }
}

fn apply(engine: &mut TransactionEngine, t: Transaction) -> Result<(), Error> {
    assert!(engine.can_apply(&t));
    engine.process_transaction(t)
}

fn account(engine: &TransactionEngine, client: u16) -> Account {
    engine.account(client).expect("account should exist")
}

#[test]
fn deposits_accumulate() {
    let mut engine = TransactionEngine::new();
    assert_eq!(apply(&mut engine, deposit(2, 10, 5)), Ok(()));
    assert_eq!(apply(&mut engine, deposit(2, 11, 5)), Ok(()));
    let acc = account(&engine, 2);
    assert_eq!(acc.available(), 10);
    assert_eq!(acc.held(), 0);
    assert!(!acc.frozen());
    let rows = engine.report().expect("totals fit");
    assert_eq!(rows.len(), 1);
    assert_eq!(
        rows[0],
        ReportRow { client: 2, available: 10, held: 0, total: 10, frozen: false }
    );
}

#[test]
fn deposit_withdraw_dispute_chargeback_scenario() {
    let mut engine = TransactionEngine::new();
    assert_eq!(apply(&mut engine, deposit(1, 1, 10)), Ok(()));
    assert_eq!(apply(&mut engine, withdrawal(1, 2, 3)), Ok(()));
    assert_eq!(account(&engine, 1).available(), 7);
    assert_eq!(apply(&mut engine, dispute(1, 1)), Ok(()));
    let acc = account(&engine, 1);
    assert_eq!(acc.available(), -3);
    assert_eq!(acc.held(), 10);
    assert_eq!(apply(&mut engine, chargeback(1, 1)), Ok(()));
    let acc = account(&engine, 1);
    assert_eq!(acc.available(), -3);
    assert_eq!(acc.held(), 0);
    assert!(acc.frozen());
    let rows = engine.report().expect("totals fit");
    assert_eq!(
        rows,
        vec![ReportRow { client: 1, available: -3, held: 0, total: -3, frozen: true }]
    );
}

#[test]
fn withdrawal_insufficient_funds_changes_nothing() {
    let mut engine = TransactionEngine::new();
    assert_eq!(apply(&mut engine, deposit(1, 1, 50)), Ok(()));
    assert_eq!(
        apply(&mut engine, withdrawal(1, 2, 51)),
        Err(Error::InsufficientFunds)
    );
    let acc = account(&engine, 1);
    assert_eq!(acc.available(), 50);
    assert_eq!(acc.held(), 0);
    assert!(!acc.frozen());
    assert!(engine.transaction(2).is_none());
}

#[test]
fn withdrawal_creates_empty_account() {
    let mut engine = TransactionEngine::new();
    assert!(engine.account(9).is_none());
    assert_eq!(
        apply(&mut engine, withdrawal(9, 1, 1)),
        Err(Error::InsufficientFunds)
    );
    let acc = account(&engine, 9);
    assert_eq!(acc.available(), 0);
    assert_eq!(acc.held(), 0);
    assert!(!acc.frozen());
}

#[test]
fn negative_amounts_are_rejected() {
    let mut engine = TransactionEngine::new();
    assert_eq!(apply(&mut engine, deposit(1, 1, -5)), Err(Error::InvalidAmount));
    assert!(engine.account(1).is_none());
    assert!(engine.transaction(1).is_none());
    assert_eq!(
        apply(&mut engine, withdrawal(1, 2, -5)),
        Err(Error::InvalidAmount)
    );
    assert!(engine.account(1).is_none());
}

#[test]
fn missing_amount_reads_as_zero() {
    let mut engine = TransactionEngine::new();
    let t = Transaction { type_: Type::Deposit, client: 3, tx: 7, amount: None, disputed: false };
    assert_eq!(apply(&mut engine, t), Ok(()));
    let acc = account(&engine, 3);
    assert_eq!(acc.available(), 0);
    let stored = engine.transaction(7).expect("entry retained");
    assert_eq!(stored.amount(), 0);
}

#[test]
fn dispute_resolve_round_trip() {
    let mut engine = TransactionEngine::new();
    assert_eq!(apply(&mut engine, deposit(1, 1, 100)), Ok(()));
    assert_eq!(apply(&mut engine, withdrawal(1, 2, 40)), Ok(()));
    assert_eq!(apply(&mut engine, dispute(1, 1)), Ok(()));
    let acc = account(&engine, 1);
    assert_eq!(acc.available(), -40);
    assert_eq!(acc.held(), 100);
    // a second dispute of the same id is blocked while it is under dispute
    assert_eq!(apply(&mut engine, dispute(1, 1)), Err(Error::InvalidDispute));
    assert_eq!(apply(&mut engine, resolve(1, 1)), Ok(()));
    let acc = account(&engine, 1);
    assert_eq!(acc.available(), 60);
    assert_eq!(acc.held(), 0);
    assert!(!acc.frozen());
    // the resolved entry is gone: neither dispute nor resolve can find it
    assert!(engine.transaction(1).is_none());
    assert_eq!(apply(&mut engine, dispute(1, 1)), Err(Error::TransactionNotFound));
    assert_eq!(apply(&mut engine, resolve(1, 1)), Err(Error::TransactionNotFound));
}

#[test]
fn resolve_and_chargeback_require_open_dispute() {
    let mut engine = TransactionEngine::new();
    assert_eq!(apply(&mut engine, deposit(1, 1, 10)), Ok(()));
    assert_eq!(apply(&mut engine, resolve(1, 1)), Err(Error::InvalidResolve));
    assert_eq!(apply(&mut engine, chargeback(1, 1)), Err(Error::InvalidChargeback));
    let acc = account(&engine, 1);
    assert_eq!(acc.available(), 10);
    assert_eq!(acc.held(), 0);
}

#[test]
fn withdrawals_cannot_be_disputed() {
    let mut engine = TransactionEngine::new();
    assert_eq!(apply(&mut engine, deposit(1, 1, 10)), Ok(()));
    assert_eq!(apply(&mut engine, withdrawal(1, 2, 4)), Ok(()));
    assert_eq!(apply(&mut engine, dispute(1, 2)), Err(Error::InvalidDispute));
    assert_eq!(account(&engine, 1).available(), 6);
}

#[test]
fn unknown_transaction_ids_mutate_nothing() {
    let mut engine = TransactionEngine::new();
    assert_eq!(apply(&mut engine, deposit(1, 1, 10)), Ok(()));
    assert_eq!(apply(&mut engine, dispute(1, 99)), Err(Error::TransactionNotFound));
    assert_eq!(apply(&mut engine, resolve(1, 99)), Err(Error::TransactionNotFound));
    assert_eq!(apply(&mut engine, chargeback(1, 99)), Err(Error::TransactionNotFound));
    let acc = account(&engine, 1);
    assert_eq!(acc.available(), 10);
    assert_eq!(acc.held(), 0);
    assert!(!acc.frozen());
}

#[test]
fn frozen_account_blocks_deposit_withdrawal_dispute() {
    let mut engine = TransactionEngine::new();
    assert_eq!(apply(&mut engine, deposit(1, 1, 10)), Ok(()));
    assert_eq!(apply(&mut engine, deposit(1, 2, 20)), Ok(()));
    assert_eq!(apply(&mut engine, dispute(1, 1)), Ok(()));
    assert_eq!(apply(&mut engine, chargeback(1, 1)), Ok(()));
    assert!(account(&engine, 1).frozen());
    assert_eq!(apply(&mut engine, deposit(1, 3, 5)), Err(Error::AccountFrozen));
    assert_eq!(apply(&mut engine, withdrawal(1, 4, 5)), Err(Error::AccountFrozen));
    assert_eq!(apply(&mut engine, dispute(1, 2)), Err(Error::AccountFrozen));
    let acc = account(&engine, 1);
    assert_eq!(acc.available(), 20);
    assert_eq!(acc.held(), 0);
}

#[test]
fn frozen_account_still_allows_resolve_and_chargeback() {
    let mut engine = TransactionEngine::new();
    assert_eq!(apply(&mut engine, deposit(1, 1, 10)), Ok(()));
    assert_eq!(apply(&mut engine, deposit(1, 2, 20)), Ok(()));
    assert_eq!(apply(&mut engine, deposit(1, 3, 30)), Ok(()));
    assert_eq!(apply(&mut engine, dispute(1, 1)), Ok(()));
    assert_eq!(apply(&mut engine, dispute(1, 2)), Ok(()));
    assert_eq!(apply(&mut engine, dispute(1, 3)), Ok(()));
    // the chargeback of tx 1 freezes the account
    assert_eq!(apply(&mut engine, chargeback(1, 1)), Ok(()));
    assert!(account(&engine, 1).frozen());
    // resolves and chargebacks of the other open disputes still go through
    assert_eq!(apply(&mut engine, resolve(1, 2)), Ok(()));
    assert_eq!(apply(&mut engine, chargeback(1, 3)), Ok(()));
    let acc = account(&engine, 1);
    assert_eq!(acc.held(), 0);
    assert_eq!(acc.available(), 20);
}

#[test]
fn duplicate_transaction_id_overwrites_history() {
    let mut engine = TransactionEngine::new();
    assert_eq!(apply(&mut engine, deposit(1, 1, 10)), Ok(()));
    assert_eq!(apply(&mut engine, deposit(1, 1, 25)), Ok(()));
    assert_eq!(account(&engine, 1).available(), 35);
    assert_eq!(engine.transaction(1).expect("entry retained").amount(), 25);
    // disputing the id now locks the overwriting deposit's amount
    assert_eq!(apply(&mut engine, dispute(1, 1)), Ok(()));
    let acc = account(&engine, 1);
    assert_eq!(acc.available(), 10);
    assert_eq!(acc.held(), 25);
}

#[test]
fn can_apply_detects_deposit_overflow() {
    let mut engine = TransactionEngine::new();
    assert_eq!(apply(&mut engine, deposit(1, 1, i128::MAX)), Ok(()));
    assert!(!engine.can_apply(&deposit(1, 2, 1)));
    assert!(engine.can_apply(&deposit(1, 3, 0)));
    assert!(engine.can_apply(&withdrawal(1, 4, 5)));
}

#[test]
fn report_covers_every_client() {
    let mut engine = TransactionEngine::new();
    assert_eq!(apply(&mut engine, deposit(1, 1, 10)), Ok(()));
    assert_eq!(apply(&mut engine, deposit(2, 2, 20)), Ok(()));
    assert_eq!(apply(&mut engine, deposit(3, 3, 30)), Ok(()));
    assert_eq!(apply(&mut engine, dispute(2, 2)), Ok(()));
    let mut rows = engine.report().expect("totals fit");
    rows.sort_by_key(|row| row.client);
    assert_eq!(
        rows,
        vec![
            ReportRow { client: 1, available: 10, held: 0, total: 10, frozen: false },
            ReportRow { client: 2, available: 0, held: 20, total: 20, frozen: false },
            ReportRow { client: 3, available: 30, held: 0, total: 30, frozen: false },
        ]
    );
}

#[test]
fn empty_engine_reports_nothing() {
    let engine = TransactionEngine::new();
    assert_eq!(engine.report(), Some(vec![]));
}

#[test]
fn account_operations() {
    let mut acc = Account::default();
    assert_eq!(acc.available(), 0);
    assert_eq!(acc.held(), 0);
    assert!(!acc.frozen());
    acc.increase_available(10);
    acc.decrease_available(3);
    acc.increase_held(8);
    acc.decrease_held(2);
    assert_eq!(acc.available(), 7);
    assert_eq!(acc.held(), 6);
    assert_eq!(acc.withdraw(7), Ok(()));
    assert_eq!(acc.available(), 0);
    assert_eq!(acc.withdraw(1), Err(Error::InsufficientFunds));
    assert_eq!(acc.available(), 0);
    assert_eq!(acc.check_frozen_mut(), Ok(()));
    acc.freeze();
    acc.freeze();
    assert!(acc.frozen());
    assert_eq!(acc.check_frozen_mut(), Err(Error::AccountFrozen));
}

#[test]
fn report_detects_total_overflow() {
    let mut engine = TransactionEngine::new();
    assert_eq!(apply(&mut engine, deposit(1, 1, i128::MAX)), Ok(()));
    assert_eq!(apply(&mut engine, dispute(1, 1)), Ok(()));
    // available 0, held i128::MAX: the report still fits
    assert!(engine.report().is_some());
    assert_eq!(apply(&mut engine, deposit(1, 2, 5)), Ok(()));
    // available 5, held i128::MAX: available + held leaves the range
    assert_eq!(engine.report(), None);
}

#[test]
fn can_apply_detects_dispute_overflow() {
    let mut engine = TransactionEngine::new();
    assert_eq!(apply(&mut engine, deposit(1, 1, i128::MAX)), Ok(()));
    assert_eq!(apply(&mut engine, dispute(1, 1)), Ok(()));
    assert_eq!(apply(&mut engine, deposit(1, 2, i128::MAX)), Ok(()));
    // a second dispute would push held past the fixed-point range
    assert!(!engine.can_apply(&dispute(1, 2)));
}
