use std::str::FromStr;

use transaction_solver::decimal::{Decimal, MAX_MANTISSA};
use transaction_solver::{Account, Amount, RecordError};

fn amount(raw: &str) -> Amount {
    Amount::parse(raw).expect("test amount should be valid")
}

fn dec(raw: &str) -> Decimal {
    let value = rust_decimal::Decimal::from_str(raw).expect("test decimal should be valid");
    Decimal::from_parts(value.mantissa(), value.scale()).expect("every decimal can be held")
}

/// Asserts the balances and that the invariant still holds.
fn assert_balances(account: &Account, available: &str, held: &str) {
    assert_eq!(account.available(), dec(available), "available");
    assert_eq!(account.held(), dec(held), "held");
    assert_eq!(
        account.total(),
        account
            .available()
            .checked_add(account.held())
            .expect("the total can be held"),
        "total must equal available + held"
    );
}

fn funded(client: u16, tx: u32, raw: &str) -> Account {
    let mut account = Account::new(client);
    account.deposit(tx, amount(raw)).expect("deposit");
    account
}

fn funded_with_disputable_withdrawals(client: u16, tx: u32, raw: &str) -> Account {
    let mut account = Account::with_disputes(client, true);
    account.deposit(tx, amount(raw)).expect("deposit");
    account
}

#[test]
fn deposit_credits_available_and_total() {
    let account = funded(1, 1, "1.5");
    assert_balances(&account, "1.5", "0");
    assert_eq!(account.total(), dec("1.5"));
}

#[test]
fn duplicate_tx_is_rejected_without_touching_the_balance() {
    let mut account = funded(1, 1, "1.5");
    assert!(matches!(
        account.deposit(1, amount("99")),
        Err(RecordError::DuplicateTx { .. })
    ));
    assert_balances(&account, "1.5", "0");
}

#[test]
fn withdrawal_debits_available() {
    let mut account = funded(1, 1, "5");
    account.withdraw(2, amount("1.5")).expect("withdrawal");
    assert_balances(&account, "3.5", "0");
}

#[test]
fn withdrawal_beyond_available_is_rejected() {
    let mut account = funded(1, 1, "1");
    assert!(matches!(
        account.withdraw(2, amount("1.0001")),
        Err(RecordError::InsufficientFunds { .. })
    ));
    assert_balances(&account, "1", "0");
}

#[test]
fn dispute_holds_funds_leaving_total_unchanged() {
    let mut account = funded(1, 1, "5");
    account.dispute(1).expect("dispute");
    assert_balances(&account, "0", "5");
    assert_eq!(account.total(), dec("5"));
}

#[test]
fn resolve_returns_held_funds() {
    let mut account = funded(1, 1, "5");
    account.dispute(1).expect("dispute");
    account.resolve(1).expect("resolve");
    assert_balances(&account, "5", "0");
    assert!(!account.is_locked());
}

#[test]
fn chargeback_removes_the_funds_and_locks() {
    let mut account = funded(1, 1, "5");
    account.dispute(1).expect("dispute");
    account.chargeback(1).expect("chargeback");
    assert_balances(&account, "0", "0");
    assert!(account.is_locked());
}

#[test]
fn a_reversed_deposit_can_leave_available_negative() {
    let mut account = funded(1, 1, "5");
    account.withdraw(2, amount("5")).expect("withdrawal");
    account.dispute(1).expect("dispute");
    assert_balances(&account, "-5", "5");
    assert_eq!(account.total(), dec("0"));

    account.chargeback(1).expect("chargeback");
    assert_balances(&account, "-5", "0");
    assert_eq!(account.total(), dec("-5"));
}

#[test]
fn a_locked_account_rejects_everything() {
    let mut account = funded(1, 1, "5");
    account.deposit(2, amount("5")).expect("second deposit");
    account.dispute(1).expect("dispute");
    account.dispute(2).expect("second dispute");
    account.chargeback(1).expect("chargeback");

    assert!(matches!(
        account.deposit(3, amount("1")),
        Err(RecordError::AccountLocked(1))
    ));
    assert!(matches!(
        account.withdraw(4, amount("1")),
        Err(RecordError::AccountLocked(1))
    ));
    assert!(matches!(
        account.dispute(2),
        Err(RecordError::AccountLocked(1))
    ));
    assert!(matches!(
        account.resolve(2),
        Err(RecordError::AccountLocked(1))
    ));
    assert!(matches!(
        account.chargeback(2),
        Err(RecordError::AccountLocked(1))
    ));
}

#[test]
fn funds_held_when_the_account_locks_stay_held() {
    let mut account = funded(1, 1, "5");
    account.deposit(2, amount("3")).expect("second deposit");
    account.dispute(2).expect("dispute the second deposit");
    account.dispute(1).expect("dispute the first deposit");
    account.chargeback(1).expect("chargeback");

    // The second dispute can never be settled now, and its funds remain held.
    assert_balances(&account, "0", "3");
}

#[test]
fn unknown_transactions_cannot_be_referenced() {
    let mut account = funded(1, 1, "5");
    for result in [
        account.dispute(99),
        account.resolve(99),
        account.chargeback(99),
    ] {
        assert!(matches!(result, Err(RecordError::UnknownTx { tx: 99, .. })));
    }
}

#[test]
fn settling_requires_an_open_dispute() {
    let mut account = funded(1, 1, "5");
    assert!(matches!(
        account.resolve(1),
        Err(RecordError::NotDisputed { .. })
    ));
    assert!(matches!(
        account.chargeback(1),
        Err(RecordError::NotDisputed { .. })
    ));
}

#[test]
fn a_transaction_cannot_be_disputed_twice() {
    let mut account = funded(1, 1, "5");
    account.dispute(1).expect("dispute");
    assert!(matches!(
        account.dispute(1),
        Err(RecordError::AlreadyDisputed { .. })
    ));
    assert_balances(&account, "0", "5");
}

#[test]
fn a_resolved_transaction_cannot_be_disputed_again() {
    let mut account = funded(1, 1, "5");
    account.dispute(1).expect("dispute");
    account.resolve(1).expect("resolve");
    assert!(matches!(
        account.dispute(1),
        Err(RecordError::UnknownTx { .. })
    ));
    assert_balances(&account, "5", "0");
}

#[test]
fn overflow_is_reported_rather_than_panicking() {
    let mut account = Account::new(1);
    account
        .deposit(1, amount("79228162514264337593543950335"))
        .expect("largest representable deposit");
    assert!(matches!(
        account.deposit(2, amount("1")),
        Err(RecordError::Overflow(1))
    ));
    assert_eq!(
        account.available(),
        Decimal::from_parts(MAX_MANTISSA, 0).expect("the largest decimal")
    );
}

#[test]
fn withdrawals_are_not_disputable_by_default() {
    let mut account = funded(1, 1, "5");
    account.withdraw(2, amount("5")).expect("withdrawal");
    assert!(matches!(
        account.dispute(2),
        Err(RecordError::UnknownTx { tx: 2, .. })
    ));
    assert_balances(&account, "0", "0");
}

#[test]
fn a_disputed_withdrawal_is_a_provisional_credit() {
    let mut account = funded_with_disputable_withdrawals(1, 1, "5");
    account.withdraw(2, amount("5")).expect("withdrawal");
    assert_balances(&account, "0", "0");

    account.dispute(2).expect("dispute the withdrawal");
    assert_balances(&account, "0", "5");
    assert_eq!(account.total(), dec("5"));
}

#[test]
fn resolving_a_disputed_withdrawal_denies_the_claim() {
    let mut account = funded_with_disputable_withdrawals(1, 1, "5");
    account.withdraw(2, amount("5")).expect("withdrawal");
    account.dispute(2).expect("dispute");
    account.resolve(2).expect("resolve");
    assert_balances(&account, "0", "0");
    assert!(!account.is_locked());
}

#[test]
fn charging_back_a_withdrawal_returns_the_money() {
    let mut account = funded_with_disputable_withdrawals(1, 1, "5");
    account.withdraw(2, amount("5")).expect("withdrawal");
    account.dispute(2).expect("dispute");
    account.chargeback(2).expect("chargeback");
    assert_balances(&account, "5", "0");
    assert_eq!(account.total(), dec("5"));
    assert!(account.is_locked());
}

#[test]
fn a_disputable_withdrawal_takes_its_id() {
    let mut account = funded_with_disputable_withdrawals(1, 1, "5");
    account.withdraw(2, amount("1")).expect("withdrawal");
    assert!(matches!(
        account.withdraw(2, amount("1")),
        Err(RecordError::DuplicateTx { client: 1, tx: 2 })
    ));
    assert!(matches!(
        account.deposit(2, amount("1")),
        Err(RecordError::DuplicateTx { client: 1, tx: 2 })
    ));
    assert_balances(&account, "4", "0");
}

#[test]
fn a_withdrawal_cannot_reuse_the_id_of_a_live_deposit() {
    let mut account = funded(1, 1, "5");
    assert!(matches!(
        account.withdraw(1, amount("2")),
        Err(RecordError::DuplicateTx { client: 1, tx: 1 })
    ));
    assert_balances(&account, "5", "0");
    account.dispute(1).expect("dispute");
    assert!(matches!(
        account.withdraw(1, amount("0")),
        Err(RecordError::DuplicateTx { client: 1, tx: 1 })
    ));
    account.resolve(1).expect("resolve");
    account.withdraw(1, amount("2")).expect("the ID is free again");
    assert_balances(&account, "3", "0");
}

#[test]
fn a_final_withdrawal_is_not_retained_under_its_id() {
    let mut account = funded(1, 1, "5");
    account.withdraw(2, amount("1")).expect("withdrawal");
    account.withdraw(2, amount("1")).expect("withdrawal");
    account.deposit(2, amount("4")).expect("deposit");
    assert_balances(&account, "7", "0");
}

#[test]
fn a_refused_withdrawal_says_what_is_there_and_what_was_asked() {
    let mut account = funded(3, 1, "10.0");
    let error = account.withdraw(2, amount("999.0")).unwrap_err();
    assert_eq!(
        error.message(),
        "client 3 has 10.0 available, cannot withdraw 999.0"
    );
}

#[test]
fn an_id_can_be_used_again_once_resolved() {
    let mut account = funded(1, 1, "5");
    account.dispute(1).expect("dispute");
    account.resolve(1).expect("resolve");
    account.deposit(1, amount("2")).expect("a new transaction 1");
    assert_balances(&account, "7", "0");
}

#[test]
fn zero_is_deposited_without_moving_anything() {
    let mut account = funded(1, 1, "5.25");
    account.deposit(2, amount("0")).expect("zero");
    account.withdraw(3, amount("0.0000")).expect("zero");
    assert_balances(&account, "5.25", "0");
}

#[test]
fn held_funds_are_the_disputed_amounts() {
    let mut account = funded(1, 1, "5");
    account.deposit(2, amount("3.5")).expect("second deposit");
    account.deposit(3, amount("0.25")).expect("third deposit");
    account.dispute(1).expect("dispute");
    account.dispute(3).expect("dispute");
    assert_balances(&account, "3.5", "5.25");
    account.resolve(1).expect("resolve");
    assert_balances(&account, "8.5", "0.25");
}

#[test]
fn an_update_that_cannot_be_represented_is_refused() {
    let mut account = funded(1, 1, "79228162514264337593543950335");
    for raw in ["0.1", "0.4", "0.5", "0.0001", "1", "1.0"] {
        assert!(
            matches!(account.deposit(2, amount(raw)), Err(RecordError::Overflow(1))),
            "{raw}"
        );
        assert_balances(&account, "79228162514264337593543950335", "0");
    }
    assert!(matches!(
        account.withdraw(2, amount("0.1")),
        Err(RecordError::Overflow(1))
    ));
    assert_balances(&account, "79228162514264337593543950335", "0");
    // Nothing was retained under the refused ID.
    assert!(matches!(
        account.dispute(2),
        Err(RecordError::UnknownTx { client: 1, tx: 2 })
    ));
    account.withdraw(3, amount("0.0")).expect("nothing is withdrawn");
    account
        .withdraw(4, amount("79228162514264337593543950335"))
        .expect("all of it");
    assert_balances(&account, "0", "0");
}

#[test]
fn a_sum_that_only_loses_zeros_is_held() {
    let mut account = funded(1, 1, "7922816251426433759354395033.5");
    account.deposit(2, amount("0.5")).expect("a whole number");
    assert_balances(&account, "7922816251426433759354395034", "0");
    assert!(matches!(
        account.deposit(3, amount("0.25")),
        Err(RecordError::Overflow(1))
    ));
    account.dispute(2).expect("dispute");
    assert_balances(&account, "7922816251426433759354395033.5", "0.5");
    assert_eq!(account.total(), dec("7922816251426433759354395034"));
    account.chargeback(2).expect("chargeback");
    assert_balances(&account, "7922816251426433759354395033.5", "0");
}

#[test]
fn a_total_that_cannot_be_represented_is_refused() {
    let mut account = funded(1, 1, "0.1");
    account.dispute(1).expect("dispute");
    assert!(matches!(
        account.deposit(2, amount("79228162514264337593543950335")),
        Err(RecordError::Overflow(1))
    ));
    assert_balances(&account, "0", "0.1");
    account
        .deposit(2, amount("7922816251426433759354395033"))
        .expect("this total is exact");
    assert_eq!(account.total(), dec("7922816251426433759354395033.1"));
}

#[test]
fn a_total_out_of_range_is_refused() {
    let mut account = funded(1, 1, "79228162514264337593543950335");
    account.dispute(1).expect("dispute");
    account.deposit(2, amount("79228162514264337593543950335")).expect_err("no such total");
    assert_balances(&account, "0", "79228162514264337593543950335");
}

#[test]
fn the_row_of_an_account() {
    let mut account = funded(6, 1, "5");
    account.deposit(2, amount("1.5")).expect("deposit");
    account.dispute(1).expect("dispute");
    let row = account.row(false);
    assert_eq!(row.client, 6);
    assert_eq!(row.available, dec("1.5"));
    assert_eq!(row.held, dec("5"));
    assert_eq!(row.total, dec("6.5"));
    assert!(!row.locked);
    assert_eq!(account.client(), 6);
    assert!(account.row(true).locked);
}

#[test]
fn a_dispute_is_about_the_first_amount_under_an_id() {
    let mut account = funded(1, 1, "5");
    account.deposit(1, amount("99")).expect_err("a duplicate");
    account.dispute(1).expect("dispute");
    account.deposit(1, amount("99")).expect_err("still a duplicate");
    assert_balances(&account, "0", "5");
}

#[test]
fn nothing_refers_to_a_resolved_transaction() {
    let mut account = funded(2, 1, "5");
    account.dispute(1).expect("dispute");
    account.resolve(1).expect("resolve");
    for result in [account.dispute(1), account.resolve(1), account.chargeback(1)] {
        assert!(matches!(
            result,
            Err(RecordError::UnknownTx { client: 2, tx: 1 })
        ));
    }
}

#[test]
fn large_balances_are_exact_to_the_last_digit() {
    let mut account = funded(1, 1, "7922816251426433759354395.0335");
    account.withdraw(2, amount("0.0001")).expect("withdrawal");
    assert_balances(&account, "7922816251426433759354395.0334", "0");
    account.dispute(1).expect("dispute");
    assert_balances(&account, "-0.0001", "7922816251426433759354395.0335");
    account.resolve(1).expect("resolve");
    assert_balances(&account, "7922816251426433759354395.0334", "0");
}
