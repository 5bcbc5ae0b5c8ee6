use std::str::FromStr;

use transaction_solver::decimal::Decimal;
use transaction_solver::{Amount, Engine, RecordError, Transaction};

fn dec(raw: &str) -> Decimal {
    let value = rust_decimal::Decimal::from_str(raw).expect("decimal");
    Decimal::from_parts(value.mantissa(), value.scale()).expect("every decimal can be held")
}

fn deposit(client: u16, tx: u32, raw: &str) -> Transaction {
    Transaction::Deposit {
        client,
        tx,
        amount: Amount::parse(raw).expect("valid amount"),
    }
}

fn withdrawal(client: u16, tx: u32, raw: &str) -> Transaction {
    Transaction::Withdrawal {
        client,
        tx,
        amount: Amount::parse(raw).expect("valid amount"),
    }
}

#[test]
fn clients_are_independent() {
    let mut engine = Engine::new();
    engine.apply(deposit(1, 1, "1.0")).expect("deposit");
    engine.apply(deposit(2, 2, "2.0")).expect("deposit");
    engine.apply(deposit(1, 3, "2.0")).expect("deposit");
    engine.apply(withdrawal(1, 4, "1.5")).expect("withdrawal");

    assert_eq!(
        engine.account(1).expect("client 1").available(),
        dec("1.5")
    );
    assert_eq!(
        engine.account(2).expect("client 2").available(),
        dec("2.0")
    );
}

#[test]
fn a_deposit_opens_an_account() {
    let mut engine = Engine::new();
    engine.apply(deposit(7, 1, "1.0")).expect("deposit");
    assert!(engine.account(7).is_some());
}

#[test]
fn a_failed_withdrawal_still_opens_an_account() {
    let mut engine = Engine::new();
    assert!(engine.apply(withdrawal(7, 1, "1.0")).is_err());

    let account = engine
        .account(7)
        .expect("the client was named by a valid record");
    assert_eq!(account.available(), Decimal::zero());
}

#[test]
fn a_reference_to_an_unknown_client_opens_nothing() {
    let mut engine = Engine::new();
    for transaction in [
        Transaction::Dispute { client: 7, tx: 1 },
        Transaction::Resolve { client: 7, tx: 1 },
        Transaction::Chargeback { client: 7, tx: 1 },
    ] {
        assert!(matches!(
            engine.apply(transaction),
            Err(RecordError::UnknownTx { client: 7, tx: 1 })
        ));
    }
    assert!(engine.account(7).is_none());
    assert_eq!(engine.accounts().len(), 0);
}

fn chargeback(client: u16, tx: u32) -> Transaction {
    Transaction::Chargeback { client, tx }
}

/// Drives a client to a chargeback and returns the engine holding the aftermath.
fn frozen(client: u16) -> Engine {
    let mut engine = Engine::new();
    engine.apply(deposit(client, 1, "5.0")).expect("deposit");
    engine
        .apply(Transaction::Dispute { client, tx: 1 })
        .expect("dispute");
    engine.apply(chargeback(client, 1)).expect("chargeback");
    engine
}

#[test]
fn a_chargeback_evicts_the_account() {
    let mut engine = frozen(1);

    assert!(engine.is_frozen(1));
    assert!(
        engine.account(1).is_none(),
        "the account and its history should be gone, not merely flagged"
    );

    let evicted = engine.take_evicted();
    assert_eq!(evicted.len(), 1);
    assert_eq!(evicted[0].client, 1);
    assert!(evicted[0].locked);
    assert_eq!(evicted[0].total, Decimal::zero());
}

/// The freeze covers every kind of record, not just the money-moving ones.
#[test]
fn a_frozen_client_rejects_everything() {
    let mut engine = frozen(1);

    for transaction in [
        deposit(1, 2, "1.0"),
        withdrawal(1, 3, "1.0"),
        Transaction::Dispute { client: 1, tx: 1 },
        Transaction::Resolve { client: 1, tx: 1 },
        chargeback(1, 1),
    ] {
        assert!(
            matches!(
                engine.apply(transaction),
                Err(RecordError::AccountLocked(1))
            ),
            "a frozen client must refuse every record"
        );
    }

    assert!(
        engine.account(1).is_none(),
        "a refused record must not resurrect the account"
    );
}

/// A row is produced once and only once, whether the account froze mid-run or survived
/// to the end.
#[test]
fn every_client_is_reported_exactly_once() {
    let mut engine = frozen(1);
    engine.apply(deposit(2, 9, "3.0")).expect("deposit");

    let taken = engine.take_evicted();
    let remaining = engine.drain_rows();

    let mut clients: Vec<u16> = taken
        .iter()
        .chain(remaining.iter())
        .map(|row| row.client)
        .collect();
    clients.sort_unstable();

    assert_eq!(clients, vec![1, 2]);
    assert!(
        engine.drain_rows().is_empty(),
        "draining twice must be empty"
    );
}

#[test]
fn a_dispute_cannot_reach_another_clients_transaction() {
    let mut engine = Engine::new();
    engine.apply(deposit(1, 1, "5.0")).expect("deposit");
    engine.apply(deposit(2, 2, "5.0")).expect("deposit");

    // Client 2 names client 1's transaction. The per-client history makes this
    // unreachable, and the error does not admit that transaction 1 exists at all.
    assert!(matches!(
        engine.apply(Transaction::Dispute { client: 2, tx: 1 }),
        Err(RecordError::UnknownTx { client: 2, tx: 1 })
    ));
    assert_eq!(
        engine.account(1).expect("client 1").available(),
        dec("5.0")
    );
}

#[test]
fn rows_not_yet_taken_come_before_the_open_accounts() {
    let mut engine = frozen(500);
    engine.apply(deposit(65535, 9, "3.0")).expect("deposit");
    engine.apply(deposit(0, 9, "1.0")).expect("deposit");
    engine.apply(deposit(7, 9, "2.0")).expect("deposit");

    let rows = engine.drain_rows();
    let reported: Vec<(u16, bool)> = rows.iter().map(|row| (row.client, row.locked)).collect();
    assert_eq!(
        reported,
        vec![(500, true), (0, false), (7, false), (65535, false)]
    );
    assert_eq!(rows[3].available, dec("3"));
    assert_eq!(rows[3].total, dec("3"));
    assert!(engine.accounts().is_empty());
    assert!(engine.is_frozen(500));
    assert!(engine.take_evicted().is_empty());
}

#[test]
fn accounts_are_listed_by_client() {
    let mut engine = Engine::default();
    for client in [9u16, 1, 65535, 0, 5] {
        engine.apply(deposit(client, 1, "1.0")).expect("deposit");
    }
    let clients: Vec<u16> = engine.accounts().iter().map(|a| a.client()).collect();
    assert_eq!(clients, vec![0, 1, 5, 9, 65535]);
}

#[test]
fn a_refused_deposit_still_opens_an_account() {
    let mut engine = Engine::with_capacity(4);
    engine
        .apply(deposit(1, 1, "79228162514264337593543950335"))
        .expect("deposit");
    assert!(matches!(
        engine.apply(deposit(1, 2, "1")),
        Err(RecordError::Overflow(1))
    ));
    assert_eq!(engine.accounts().len(), 1);
    assert!(matches!(
        engine.apply(deposit(1, 1, "1")),
        Err(RecordError::DuplicateTx { client: 1, tx: 1 })
    ));
}

#[test]
fn an_id_belongs_to_one_client() {
    let mut engine = Engine::new();
    engine.apply(deposit(1, 1, "5.0")).expect("deposit");
    engine.apply(deposit(2, 1, "6.0")).expect("the same id of another client");
    engine
        .apply(Transaction::Dispute { client: 2, tx: 1 })
        .expect("dispute");
    assert_eq!(engine.account(1).unwrap().held(), Decimal::zero());
    assert_eq!(engine.account(2).unwrap().held(), dec("6"));
}

#[test]
fn an_engine_can_let_withdrawals_be_disputed() {
    let mut engine = Engine::with_disputes(4, true);
    engine.apply(deposit(1, 1, "5.0")).expect("deposit");
    engine.apply(withdrawal(1, 2, "5.0")).expect("withdrawal");
    engine
        .apply(Transaction::Dispute { client: 1, tx: 2 })
        .expect("dispute");
    assert_eq!(engine.account(1).unwrap().total(), dec("5"));
    engine.apply(chargeback(1, 2)).expect("chargeback");
    let rows = engine.take_evicted();
    assert_eq!(rows[0].available, dec("5"));
    assert_eq!(rows[0].held, dec("0"));
}
