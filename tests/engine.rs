use rust_decimal::Decimal;
use std::str::FromStr;
use txn_engine::amount::Amount;
use txn_engine::engine::Account;
use txn_engine::engine::ProcessingError;
use txn_engine::engine::Transaction;
use txn_engine::engine::TransactionEngine;
use txn_engine::engine::TransactionType::Chargeback;
use txn_engine::engine::TransactionType::Deposit;
use txn_engine::engine::TransactionType::Dispute;
use txn_engine::engine::TransactionType::Resolve;
use txn_engine::engine::TransactionType::Withdrawal;

fn dec(value: &str) -> Decimal {
    Decimal::from_str(value).unwrap()
}

fn val(a: Amount) -> Decimal {
    Decimal::from_i128_with_scale(a.mantissa, a.scale)
}

fn some(s: &str) -> Option<String> {
    Some(s.to_string())
}

fn acct(engine: &TransactionEngine, id: u16) -> Account {
    engine.account(id).unwrap()
}

fn balanced(a: &Account) -> bool {
    val(a.total) == val(a.available) + val(a.held)
}

#[test]
fn can_deposit_and_withdraw() {
    let mut engine = TransactionEngine::new();
    let acct_id = 1;
    engine
        .process_transaction(Transaction::from(Deposit, acct_id, 1, some("1.0")))
        .unwrap();
    let current_acct = acct(&engine, acct_id);
    assert_eq!(val(current_acct.available), dec("1.0"));
    engine
        .process_transaction(Transaction::from(Withdrawal, acct_id, 1, some("0.1234")))
        .unwrap();
    let current_acct = acct(&engine, acct_id);
    assert_eq!(val(current_acct.available), dec("0.8766"));
}

#[test]
fn chargeback_deposit_flow() {
    let mut engine = TransactionEngine::new();
    let acct_id = 1;
    engine
        .process_transaction(Transaction::from(Deposit, acct_id, 1, some("1.0")))
        .unwrap();
    engine
        .process_transaction(Transaction::from(Dispute, acct_id, 1, None))
        .unwrap();
    let current_acct = acct(&engine, acct_id);
    assert_eq!(val(current_acct.available), dec("0"));
    assert_eq!(val(current_acct.held), dec("1.0"));
    assert_eq!(engine.is_disputed(1), true);
    engine
        .process_transaction(Transaction::from(Chargeback, acct_id, 1, None))
        .unwrap();
    let current_acct = acct(&engine, acct_id);
    assert_eq!(val(current_acct.available), dec("0"));
    assert_eq!(val(current_acct.held), dec("0"));
    assert_eq!(current_acct.locked, true);
    assert_eq!(engine.no_disputes(), true);
    engine
        .process_transaction(Transaction::from(Deposit, acct_id, 2, some("1.0")))
        .unwrap();
    let current_acct = acct(&engine, acct_id);
    assert_eq!(val(current_acct.total), dec("0"));
}

#[test]
fn resolve_deposit_flow() {
    let mut engine = TransactionEngine::new();
    let acct_id = 1;
    engine
        .process_transaction(Transaction::from(Deposit, acct_id, 1, some("1.0")))
        .unwrap();
    engine
        .process_transaction(Transaction::from(Dispute, acct_id, 1, None))
        .unwrap();
    let current_acct = acct(&engine, acct_id);
    assert_eq!(val(current_acct.available), dec("0"));
    assert_eq!(val(current_acct.held), dec("1.0"));
    assert_eq!(engine.is_disputed(1), true);
    engine
        .process_transaction(Transaction::from(Resolve, acct_id, 1, None))
        .unwrap();
    let current_acct = acct(&engine, acct_id);
    assert_eq!(val(current_acct.available), dec("1.0"));
    assert_eq!(val(current_acct.held), dec("0"));
    assert_eq!(current_acct.locked, false);
    assert_eq!(engine.no_disputes(), true);
    engine
        .process_transaction(Transaction::from(Deposit, acct_id, 2, some("1.0")))
        .unwrap();
    let current_acct = acct(&engine, acct_id);
    assert_eq!(val(current_acct.available), dec("2.0"));
}

#[test]
fn resolve_withdrawal_flow() {
    let mut engine = TransactionEngine::new();
    let acct_id = 1;
    engine
        .process_transaction(Transaction::from(Deposit, acct_id, 1, some("1.0")))
        .unwrap();
    engine
        .process_transaction(Transaction::from(Withdrawal, acct_id, 2, some("1.0")))
        .unwrap();
    engine
        .process_transaction(Transaction::from(Dispute, acct_id, 2, None))
        .unwrap();
    let current_acct = acct(&engine, acct_id);
    assert_eq!(val(current_acct.available), dec("0"));
    assert_eq!(val(current_acct.held), dec("1.0"));
    assert_eq!(val(current_acct.total), dec("1.0"));
    assert_eq!(engine.is_disputed(2), true);
    engine
        .process_transaction(Transaction::from(Resolve, acct_id, 2, None))
        .unwrap();
    let current_acct = acct(&engine, acct_id);
    assert_eq!(val(current_acct.available), dec("0"));
    assert_eq!(val(current_acct.held), dec("0"));
    assert_eq!(current_acct.locked, false);
    assert_eq!(engine.no_disputes(), true);
    engine
        .process_transaction(Transaction::from(Deposit, acct_id, 3, some("1.0")))
        .unwrap();
    let current_acct = acct(&engine, acct_id);
    assert_eq!(val(current_acct.available), dec("1.0"));
}

#[test]
fn withdraw_too_much() {
    let mut engine = TransactionEngine::new();
    let acct_id = 1;
    engine
        .process_transaction(Transaction::from(Deposit, acct_id, 1, some("1.0")))
        .unwrap();
    engine
        .process_transaction(Transaction::from(Withdrawal, acct_id, 1, some("2.0")))
        .unwrap();
    let current_acct = acct(&engine, acct_id);
    assert_eq!(val(current_acct.available), dec("1.0"));
}

#[test]
fn basic_sanity() {
    let mut engine = TransactionEngine::new();
    engine
        .process_transaction(Transaction::from(Deposit, 1, 1, some("1.0")))
        .unwrap();
    engine
        .process_transaction(Transaction::from(Deposit, 2, 2, some("2.0")))
        .unwrap();
    engine
        .process_transaction(Transaction::from(Deposit, 1, 3, some("2.0")))
        .unwrap();
    engine
        .process_transaction(Transaction::from(Withdrawal, 1, 4, some("1.5")))
        .unwrap();
    engine
        .process_transaction(Transaction::from(Withdrawal, 2, 5, some("3.0")))
        .unwrap();
    let accounts = engine.retrieve_accounts();
    assert_eq!(accounts.len(), 2);
    for a in accounts.iter() {
        match a.id {
            1 => assert_eq!(val(a.account.total), dec("1.5")),
            2 => assert_eq!(val(a.account.total), dec("2.0")),
            _ => panic!("unexpected client"),
        }
    }
}

#[test]
fn deposit_scenario_values() {
    let mut engine = TransactionEngine::new();
    engine
        .process_transaction(Transaction::from(Deposit, 1, 1, some("1.0")))
        .unwrap();
    let a = acct(&engine, 1);
    assert_eq!(val(a.available), dec("1.0000"));
    assert_eq!(val(a.held), dec("0"));
    assert_eq!(val(a.total), dec("1.0000"));
    assert_eq!(a.locked, false);
}

#[test]
fn dispute_withdrawal_then_resolve_totals() {
    let mut engine = TransactionEngine::new();
    engine.process_transaction(Transaction::from(Deposit, 1, 1, some("1.0"))).unwrap();
    engine.process_transaction(Transaction::from(Withdrawal, 1, 2, some("1.0"))).unwrap();
    engine.process_transaction(Transaction::from(Dispute, 1, 2, None)).unwrap();
    let a = acct(&engine, 1);
    assert_eq!(val(a.total), dec("1.0000"));
    assert_eq!(val(a.held), dec("1.0000"));
    assert_eq!(val(a.available), dec("0"));
    engine.process_transaction(Transaction::from(Resolve, 1, 2, None)).unwrap();
    let a = acct(&engine, 1);
    assert_eq!(val(a.total), dec("0"));
    assert_eq!(val(a.held), dec("0"));
    assert_eq!(val(a.available), dec("0"));
    assert_eq!(a.locked, false);
}

#[test]
fn chargeback_of_withdrawal_restores_funds_and_locks() {
    let mut engine = TransactionEngine::new();
    engine.process_transaction(Transaction::from(Deposit, 1, 1, some("3.0"))).unwrap();
    engine.process_transaction(Transaction::from(Withdrawal, 1, 2, some("1.0"))).unwrap();
    engine.process_transaction(Transaction::from(Dispute, 1, 2, None)).unwrap();
    engine.process_transaction(Transaction::from(Chargeback, 1, 2, None)).unwrap();
    let a = acct(&engine, 1);
    assert_eq!(val(a.available), dec("3.0"));
    assert_eq!(val(a.held), dec("0"));
    assert_eq!(val(a.total), dec("3.0"));
    assert_eq!(a.locked, true);
    assert!(balanced(&a));
}

#[test]
fn withdrawal_by_another_client_is_rejected() {
    let mut engine = TransactionEngine::new();
    engine.process_transaction(Transaction::from(Deposit, 1, 1, some("1.0"))).unwrap();
    engine.process_transaction(Transaction::from(Withdrawal, 2, 1, some("2.0"))).unwrap();
    assert_eq!(val(acct(&engine, 1).available), dec("1.0000"));
    assert_eq!(val(acct(&engine, 2).available), dec("0"));
}

#[test]
fn balance_holds_through_a_mixed_run() {
    let mut engine = TransactionEngine::new();
    let records = vec![
        Transaction::from(Deposit, 1, 1, some("5.25")),
        Transaction::from(Deposit, 2, 2, some("0.0001")),
        Transaction::from(Withdrawal, 1, 3, some("1.125")),
        Transaction::from(Dispute, 1, 1, None),
        Transaction::from(Dispute, 2, 3, None),
        Transaction::from(Resolve, 1, 1, None),
        Transaction::from(Chargeback, 2, 3, None),
    ];
    for r in records {
        engine.process_transaction(r).unwrap();
        for a in engine.retrieve_accounts() {
            assert!(balanced(&a.account));
        }
    }
}

#[test]
fn locked_account_ignores_everything() {
    let mut engine = TransactionEngine::new();
    engine.process_transaction(Transaction::from(Deposit, 1, 1, some("2.0"))).unwrap();
    engine.process_transaction(Transaction::from(Deposit, 1, 2, some("1.0"))).unwrap();
    engine.process_transaction(Transaction::from(Dispute, 1, 2, None)).unwrap();
    engine.process_transaction(Transaction::from(Chargeback, 1, 2, None)).unwrap();
    let before = acct(&engine, 1);
    assert!(before.locked);
    engine.process_transaction(Transaction::from(Withdrawal, 1, 3, some("1.0"))).unwrap();
    engine.process_transaction(Transaction::from(Dispute, 1, 1, None)).unwrap();
    engine.process_transaction(Transaction::from(Deposit, 1, 4, None)).unwrap();
    let after = acct(&engine, 1);
    assert_eq!(val(after.available), val(before.available));
    assert_eq!(val(after.held), val(before.held));
    assert_eq!(val(after.total), val(before.total));
    assert!(after.locked);
    assert!(!engine.is_disputed(1));
}

#[test]
fn settling_undisputed_transaction_changes_nothing() {
    let mut engine = TransactionEngine::new();
    engine.process_transaction(Transaction::from(Deposit, 1, 1, some("1.0"))).unwrap();
    engine.process_transaction(Transaction::from(Resolve, 1, 1, None)).unwrap();
    engine.process_transaction(Transaction::from(Chargeback, 1, 1, None)).unwrap();
    engine.process_transaction(Transaction::from(Chargeback, 1, 9, None)).unwrap();
    let a = acct(&engine, 1);
    assert_eq!(val(a.available), dec("1.0"));
    assert_eq!(val(a.held), dec("0"));
    assert_eq!(val(a.total), dec("1.0"));
    assert!(!a.locked);
    assert!(engine.no_disputes());
}

#[test]
fn deposits_only_sum_up() {
    let mut engine = TransactionEngine::new();
    engine.process_transaction(Transaction::from(Deposit, 7, 1, some("1.5"))).unwrap();
    engine.process_transaction(Transaction::from(Deposit, 7, 2, some("0.25"))).unwrap();
    engine.process_transaction(Transaction::from(Deposit, 8, 3, some("10"))).unwrap();
    engine.process_transaction(Transaction::from(Deposit, 7, 4, some("0.0001"))).unwrap();
    let a = acct(&engine, 7);
    assert_eq!(val(a.available), dec("1.7501"));
    assert_eq!(val(a.total), dec("1.7501"));
    assert_eq!(val(a.held), dec("0"));
    let b = acct(&engine, 8);
    assert_eq!(val(b.total), dec("10"));
    assert_eq!(val(b.held), dec("0"));
}

#[test]
fn missing_amount_is_an_error() {
    let mut engine = TransactionEngine::new();
    let r = engine.process_transaction(Transaction::from(Deposit, 1, 1, None));
    assert_eq!(r, Err(ProcessingError::AmountError));
    assert!(engine.account(1).is_none());
}

#[test]
fn unparseable_amount_is_an_error() {
    let mut engine = TransactionEngine::new();
    engine.process_transaction(Transaction::from(Deposit, 1, 1, some("1.0"))).unwrap();
    let r = engine.process_transaction(Transaction::from(Withdrawal, 1, 2, some("abc")));
    assert_eq!(r, Err(ProcessingError::AmountError));
    assert_eq!(val(acct(&engine, 1).available), dec("1.0"));
}

#[test]
fn overflowing_balance_is_an_error() {
    let mut engine = TransactionEngine::new();
    engine
        .process_transaction(Transaction::from(Deposit, 1, 1, some("0.0000000000000000000000000001")))
        .unwrap();
    let r = engine.process_transaction(Transaction::from(
        Deposit,
        1,
        2,
        some("79228162514264337593543950335"),
    ));
    assert_eq!(r, Err(ProcessingError::Overflow));
    assert_eq!(val(acct(&engine, 1).total), dec("0.0000000000000000000000000001"));
}

#[test]
fn unknown_dispute_opens_empty_account() {
    let mut engine = TransactionEngine::new();
    engine.process_transaction(Transaction::from(Dispute, 3, 42, None)).unwrap();
    let a = acct(&engine, 3);
    assert_eq!(val(a.total), dec("0"));
    assert!(!a.locked);
    assert!(engine.no_disputes());
}

#[test]
fn repeated_dispute_moves_funds_again() {
    let mut engine = TransactionEngine::new();
    engine.process_transaction(Transaction::from(Deposit, 1, 1, some("1.0"))).unwrap();
    engine.process_transaction(Transaction::from(Dispute, 1, 1, None)).unwrap();
    engine.process_transaction(Transaction::from(Dispute, 1, 1, None)).unwrap();
    let a = acct(&engine, 1);
    assert_eq!(val(a.available), dec("-1.0"));
    assert_eq!(val(a.held), dec("2.0"));
    assert_eq!(val(a.total), dec("1.0"));
    engine.process_transaction(Transaction::from(Resolve, 1, 1, None)).unwrap();
    assert!(engine.no_disputes());
}
