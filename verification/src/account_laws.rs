//! What holds of an account whatever is done with it.

use crate::account::{AccountState, Retained, TxState};
use crate::amount;
use crate::decimal;
use crate::decimal::Number;
use crate::error::Rejection;
use crate::record::Instruction;
use vstd::prelude::*;

verus! {

/// What an instruction makes of the account of its client.
pub open spec fn performed(account: AccountState, instruction: Instruction) -> Result<
    AccountState,
    Rejection,
> {
    match instruction {
        Instruction::Deposit { tx, amount, .. } => account.deposit(tx, amount),
        Instruction::Withdrawal { tx, amount, .. } => account.withdraw(tx, amount),
        Instruction::Dispute { tx, .. } => account.dispute(tx),
        Instruction::Resolve { tx, .. } => account.resolve(tx),
        Instruction::Chargeback { tx, .. } => account.chargeback(tx),
    }
}

/// The amount in an instruction, if it carries one, is a valid one.
pub open spec fn is_valid(instruction: Instruction) -> bool {
    match instruction {
        Instruction::Deposit { amount, .. } => amount::is_amount(amount),
        Instruction::Withdrawal { amount, .. } => amount::is_amount(amount),
        _ => true,
    }
}

/// A sum has the value of both numbers together.
proof fn sums_add_values(a: Number, b: Number)
    requires
        a.scale <= amount::SCALE,
        b.scale <= amount::SCALE,
    ensures
        decimal::exact_sum(a, b).value() == a.value() + b.value(),
        decimal::exact_sum(a, b).scale <= amount::SCALE,
        decimal::lossless_sum(a, b) matches Some(n) ==> n.fits() && n.scale <= amount::SCALE
            && n.value() == a.value() + b.value(),
        decimal::lossless_sum(a, b) is Some <==> decimal::representable(a.value() + b.value()),
{
    decimal::exact_sums_add_up(a, b, decimal::MAX_SCALE as nat);
    decimal::nothing_is_lost(decimal::exact_sum(a, b));
    decimal::only_the_unrepresentable_is_refused(decimal::exact_sum(a, b));
}

/// A difference has the value of the first number less that of the second.
proof fn differences_subtract_values(a: Number, b: Number)
    requires
        a.scale <= amount::SCALE,
        b.scale <= amount::SCALE,
    ensures
        decimal::exact_difference(a, b).value() == a.value() - b.value(),
        decimal::exact_difference(a, b).scale <= amount::SCALE,
        decimal::lossless_difference(a, b) matches Some(n) ==> n.fits() && n.scale
            <= amount::SCALE && n.value() == a.value() - b.value(),
        decimal::lossless_difference(a, b) is Some <==> decimal::representable(
            a.value() - b.value(),
        ),
{
    decimal::exact_differences_add_up(a, b, decimal::MAX_SCALE as nat);
    decimal::nothing_is_lost(decimal::exact_difference(a, b));
    decimal::only_the_unrepresentable_is_refused(decimal::exact_difference(a, b));
}

/// An account that is opened is valid.
pub proof fn a_new_account_is_valid(client: u16, disputable_withdrawals: bool)
    ensures
        AccountState::opened(client, disputable_withdrawals).valid(),
{
}

/// Every instruction leaves a valid account valid: at every point `available` and `held` add
/// up to a total that can be held to the last digit, and neither has more than four decimal
/// places.
pub proof fn every_account_stays_valid(account: AccountState, instruction: Instruction)
    requires
        account.valid(),
        is_valid(instruction),
    ensures
        performed(account, instruction) matches Ok(next) ==> next.valid() && next.client
            == account.client && next.disputable_withdrawals == account.disputable_withdrawals,
{
    match instruction {
        Instruction::Deposit { tx, amount, .. } => {
            sums_add_values(account.available, amount);
        },
        Instruction::Withdrawal { tx, amount, .. } => {
            differences_subtract_values(account.available, amount);
        },
        Instruction::Dispute { tx, .. } => {
            if let Ok(record) = account.retained(tx) {
                differences_subtract_values(account.available, record.amount);
                sums_add_values(account.held, record.amount);
            }
        },
        Instruction::Resolve { tx, .. } => {
            if let Ok(record) = account.retained(tx) {
                sums_add_values(account.available, record.amount);
                differences_subtract_values(account.held, record.amount);
            }
        },
        Instruction::Chargeback { tx, .. } => {
            if let Ok(record) = account.retained(tx) {
                sums_add_values(account.available, record.amount);
                differences_subtract_values(account.held, record.amount);
            }
        },
    }
}

/// A locked account refuses everything, with one answer.
pub proof fn a_locked_account_refuses_everything(account: AccountState, instruction: Instruction)
    requires
        account.history is None,
    ensures
        performed(account, instruction) == Err::<AccountState, Rejection>(
            Rejection::AccountLocked(account.client),
        ),
{
}

/// A chargeback locks the account, and nothing else does.
pub proof fn only_a_chargeback_locks(account: AccountState, instruction: Instruction)
    ensures
        performed(account, instruction) matches Ok(next) ==> (next.history is None
            <==> instruction is Chargeback),
{
}

/// A withdrawal never takes out more than is available.
pub proof fn a_withdrawal_never_overdraws(account: AccountState, tx: u32, amount: Number)
    requires
        account.valid(),
        amount::is_amount(amount),
    ensures
        account.withdraw(tx, amount) matches Ok(next) ==> 0 <= next.available.value(),
{
    differences_subtract_values(account.available, amount);
}

/// An ID under which a transaction is still retained is taken: neither a deposit nor a
/// withdrawal may use it again, whatever its amount.
pub proof fn a_retained_id_is_taken(account: AccountState, tx: u32, amount: Number)
    requires
        account.history matches Some(txs) && txs.contains_key(tx),
    ensures
        ({
            let duplicate = Err::<AccountState, Rejection>(
                Rejection::DuplicateTx { client: account.client, tx },
            );
            account.deposit(tx, amount) == duplicate && account.withdraw(tx, amount) == duplicate
        }),
{
}

/// A second deposit under the ID of the first is refused, and so is a withdrawal: the first one
/// stands.
pub proof fn the_first_deposit_under_an_id_stands(
    account: AccountState,
    tx: u32,
    first: Number,
    second: Number,
)
    ensures
        account.deposit(tx, first) matches Ok(next) ==> ({
            let duplicate = Err::<AccountState, Rejection>(
                Rejection::DuplicateTx { client: account.client, tx },
            );
            next.deposit(tx, second) == duplicate && next.withdraw(tx, second) == duplicate
        }),
{
}

/// As long as a transaction is retained its amount stays what it was, and only resolving it or
/// locking the account ends its being retained.
pub proof fn a_retained_amount_never_changes(
    account: AccountState,
    instruction: Instruction,
    tx: u32,
)
    requires
        account.history matches Some(txs) && txs.contains_key(tx),
    ensures
        performed(account, instruction) matches Ok(next) ==> match next.history {
            None => instruction is Chargeback,
            Some(txs) => if txs.contains_key(tx) {
                txs[tx].amount == account.history->0[tx].amount
            } else {
                instruction matches Instruction::Resolve { tx: other, .. } && other == tx
            },
        },
{
}

/// A transaction under dispute cannot be disputed again.
pub proof fn a_dispute_is_opened_once(account: AccountState, tx: u32)
    ensures
        account.dispute(tx) matches Ok(next) ==> next.dispute(tx) == Err::<
            AccountState,
            Rejection,
        >(Rejection::AlreadyDisputed { client: account.client, tx }),
{
}

/// Once resolved, a transaction can never be referred to again: it is as if it had never been.
pub proof fn a_resolved_transaction_is_gone(account: AccountState, tx: u32)
    ensures
        account.resolve(tx) matches Ok(next) ==> ({
            let unknown = Err::<AccountState, Rejection>(
                Rejection::UnknownTx { client: account.client, tx },
            );
            next.dispute(tx) == unknown && next.resolve(tx) == unknown && next.chargeback(tx)
                == unknown
        }),
{
}

/// Once resolved, the ID of a transaction may be used for another one.
pub proof fn a_resolved_id_may_be_used_again(account: AccountState, tx: u32, amount: Number)
    ensures
        account.resolve(tx) matches Ok(next) ==> {
            &&& next.deposit(tx, amount) matches Err(error) ==> error is Overflow
            &&& next.withdraw(tx, amount) matches Err(error) ==> error is Overflow
                || error is InsufficientFunds
        },
{
}

/// Only a transaction under dispute can be resolved or charged back.
pub proof fn only_a_dispute_can_end(account: AccountState, tx: u32)
    requires
        account.retained(tx) matches Ok(record) && (record.state == TxState::Deposit
            || record.state == TxState::Withdrawal),
    ensures
        account.resolve(tx) == Err::<AccountState, Rejection>(
            Rejection::NotDisputed { client: account.client, tx },
        ),
        account.chargeback(tx) == Err::<AccountState, Rejection>(
            Rejection::NotDisputed { client: account.client, tx },
        ),
{
}

/// Nothing that is retained is a withdrawal.
pub open spec fn retains_deposits_only(account: AccountState) -> bool {
    account.history matches Some(txs) ==> forall|tx: u32| #[trigger]
        txs.contains_key(tx) ==> txs[tx].state == TxState::Deposit || txs[tx].state
            == TxState::DisputedDeposit
}

/// A new account retains no withdrawal.
pub proof fn a_new_account_retains_no_withdrawal(client: u16, disputable_withdrawals: bool)
    ensures
        retains_deposits_only(AccountState::opened(client, disputable_withdrawals)),
{
}

/// Where withdrawals cannot be disputed, none is ever retained.
pub proof fn a_final_withdrawal_is_never_retained(account: AccountState, instruction: Instruction)
    requires
        !account.disputable_withdrawals,
        retains_deposits_only(account),
    ensures
        performed(account, instruction) matches Ok(next) ==> retains_deposits_only(next),
{
}

/// `next` differs from `account` by this much in the two balances.
pub open spec fn shifted(
    account: AccountState,
    next: AccountState,
    available: int,
    held: int,
) -> bool {
    &&& next.available.value() == account.available.value() + available
    &&& next.held.value() == account.held.value() + held
}

/// By how much an instruction is to change the two balances: a deposit adds to what is
/// available and a withdrawal takes from it. A disputed deposit moves from available to held
/// and back when resolved, and a chargeback takes it away. A disputed withdrawal is held on
/// top, is no longer held when resolved, and a chargeback makes it available.
pub open spec fn told(account: AccountState, instruction: Instruction) -> (int, int) {
    let behind = amount_behind(account, instruction).value();
    let of_a_deposit = account.history matches Some(txs) && txs.contains_key(instruction.tx()) && (
    txs[instruction.tx()].state == TxState::Deposit || txs[instruction.tx()].state
        == TxState::DisputedDeposit);
    match instruction {
        Instruction::Deposit { .. } => (behind, 0),
        Instruction::Withdrawal { .. } => (-behind, 0),
        Instruction::Dispute { .. } => if of_a_deposit {
            (-behind, behind)
        } else {
            (0, behind)
        },
        Instruction::Resolve { .. } => if of_a_deposit {
            (behind, -behind)
        } else {
            (0, -behind)
        },
        Instruction::Chargeback { .. } => if of_a_deposit {
            (0, -behind)
        } else {
            (behind, -behind)
        },
    }
}

/// Both balances and the total that an instruction is to lead to can be represented.
pub open spec fn can_be_represented(account: AccountState, instruction: Instruction) -> bool {
    let available = account.available.value() + told(account, instruction).0;
    let held = account.held.value() + told(account, instruction).1;
    &&& decimal::representable(available)
    &&& decimal::representable(held)
    &&& decimal::representable(available + held)
}

/// Money is never made up and never lost: what an instruction does to the balances is what it
/// is told to, to the last digit. An instruction whose balances or total could not be
/// represented is refused for that, and no other is.
pub proof fn money_moves_as_told(account: AccountState, instruction: Instruction)
    requires
        account.valid(),
        is_valid(instruction),
    ensures
        match performed(account, instruction) {
            Ok(next) => shifted(
                account,
                next,
                told(account, instruction).0,
                told(account, instruction).1,
            ) && can_be_represented(account, instruction),
            Err(Rejection::Overflow(client)) => client == account.client && !can_be_represented(
                account,
                instruction,
            ),
            Err(_) => true,
        },
{
    let available = account.available;
    let held = account.held;
    let x = amount_behind(account, instruction);
    assert(available.fits() && held.fits());
    sums_add_values(available, x);
    sums_add_values(held, x);
    differences_subtract_values(available, x);
    differences_subtract_values(held, x);
    let more = decimal::lossless_sum(available, x);
    let less = decimal::lossless_difference(available, x);
    let more_held = decimal::lossless_sum(held, x);
    let less_held = decimal::lossless_difference(held, x);
    match instruction {
        Instruction::Deposit { .. } => {
            if more is Some {
                sums_add_values(more->0, held);
            }
        },
        Instruction::Withdrawal { .. } => {
            if less is Some {
                sums_add_values(less->0, held);
            }
        },
        Instruction::Dispute { .. } => {
            if more_held is Some {
                sums_add_values(available, more_held->0);
                if less is Some {
                    sums_add_values(less->0, more_held->0);
                }
            }
        },
        _ => {
            if less_held is Some {
                sums_add_values(available, less_held->0);
                if more is Some {
                    sums_add_values(more->0, less_held->0);
                }
            }
        },
    }
}

/// The total is what is available and what is held together, at every point.
pub proof fn the_total_is_the_sum(account: AccountState)
    requires
        account.valid(),
    ensures
        account.total().value() == account.available.value() + account.held.value(),
{
    sums_add_values(account.available, account.held);
}

/// Disputing a transaction and then resolving it leaves the balances as they were.
pub proof fn a_resolved_dispute_leaves_no_trace_in_the_balances(
    account: AccountState,
    tx: u32,
    disputed: AccountState,
    resolved: AccountState,
)
    requires
        account.valid(),
        account.dispute(tx) == Ok::<AccountState, Rejection>(disputed),
        disputed.resolve(tx) == Ok::<AccountState, Rejection>(resolved),
    ensures
        shifted(account, resolved, 0, 0),
{
    let client = account.client;
    every_account_stays_valid(account, Instruction::Dispute { client, tx });
    money_moves_as_told(account, Instruction::Dispute { client, tx });
    money_moves_as_told(disputed, Instruction::Resolve { client, tx });
}

/// A deposit that is disputed and charged back is gone: what was available without it is left.
/// A withdrawal that is disputed and charged back is available again.
pub proof fn a_chargeback_reverses_the_transaction(
    account: AccountState,
    tx: u32,
    disputed: AccountState,
    reversed: AccountState,
)
    requires
        account.valid(),
        account.dispute(tx) == Ok::<AccountState, Rejection>(disputed),
        disputed.chargeback(tx) == Ok::<AccountState, Rejection>(reversed),
    ensures
        ({
            let record = account.retained(tx)->Ok_0;
            if record.state == TxState::Deposit {
                shifted(account, reversed, -record.amount.value(), 0)
            } else {
                shifted(account, reversed, record.amount.value(), 0)
            }
        }),
{
    let client = account.client;
    every_account_stays_valid(account, Instruction::Dispute { client, tx });
    money_moves_as_told(account, Instruction::Dispute { client, tx });
    money_moves_as_told(disputed, Instruction::Chargeback { client, tx });
}

/// Disputing or resolving a deposit leaves the reported total as it was.
pub proof fn a_disputed_deposit_keeps_the_total(
    account: AccountState,
    instruction: Instruction,
    tx: u32,
    next: AccountState,
)
    requires
        account.valid(),
        (instruction matches Instruction::Dispute { tx: id, .. } && id == tx) || (
        instruction matches Instruction::Resolve { tx: id, .. } && id == tx),
        account.retained(tx) matches Ok(record) && (record.state == TxState::Deposit
            || record.state == TxState::DisputedDeposit),
        performed(account, instruction) == Ok::<AccountState, Rejection>(next),
    ensures
        next.total().value() == account.total().value(),
{
    every_account_stays_valid(account, instruction);
    money_moves_as_told(account, instruction);
    the_total_is_the_sum(account);
    the_total_is_the_sum(next);
}

/// Numbers of at most four decimal places can be added and subtracted as long as their
/// magnitudes together stay below about 7.9 * 10^24.
pub proof fn ordinary_numbers_never_overflow(a: Number, b: Number)
    requires
        a.scale <= amount::SCALE,
        b.scale <= amount::SCALE,
        decimal::magnitude(a.at_scale(amount::SCALE as nat)) + decimal::magnitude(
            b.at_scale(amount::SCALE as nat),
        ) <= decimal::MAX_MANTISSA,
    ensures
        decimal::exact_sum(a, b).fits(),
        decimal::exact_difference(a, b).fits(),
{
    let scale = decimal::wider(a, b);
    shorter_is_smaller(a, scale);
    shorter_is_smaller(b, scale);
    shorter_is_smaller(a, a.scale);
    shorter_is_smaller(b, b.scale);
    assert(decimal::ten_to(0) == 1);
    assert(a.mantissa * 1 == a.mantissa && b.mantissa * 1 == b.mantissa);
}

/// Written with fewer decimal places, a number has a smaller mantissa.
proof fn shorter_is_smaller(n: Number, scale: nat)
    requires
        n.scale <= scale <= amount::SCALE,
    ensures
        decimal::magnitude(n.at_scale(scale)) <= decimal::magnitude(
            n.at_scale(amount::SCALE as nat),
        ),
{
    let near = decimal::ten_to((scale - n.scale) as nat);
    let rest = decimal::ten_to((amount::SCALE - scale) as nat);
    decimal::powers_of_ten_multiply((scale - n.scale) as nat, (amount::SCALE - scale) as nat);
    decimal::powers_of_ten_multiply((amount::SCALE - scale) as nat, 0);
    let short = n.mantissa * near;
    assert(n.mantissa * (near * rest) == short * rest) by (nonlinear_arith)
        requires
            short == n.mantissa * near,
    ;
    assert(short >= 0 ==> short <= short * rest) by (nonlinear_arith)
        requires
            rest >= 1,
    ;
    assert(short < 0 ==> short >= short * rest) by (nonlinear_arith)
        requires
            rest >= 1,
    ;
    assert(short < 0 ==> short * rest < 0) by (nonlinear_arith)
        requires
            rest >= 1,
    ;
}

/// How much a number is, in ten-thousandths and without its sign.
pub open spec fn size(n: Number) -> nat {
    decimal::magnitude(n.at_scale(amount::SCALE as nat))
}

/// The amount of the transaction that `tx` refers to; zero if there is none.
pub open spec fn amount_of(account: AccountState, tx: u32) -> Number {
    match account.history {
        Some(txs) => if txs.contains_key(tx) {
            txs[tx].amount
        } else {
            Number { mantissa: 0, scale: 0 }
        },
        None => Number { mantissa: 0, scale: 0 },
    }
}

/// The amount that an instruction is about: its own, or that of the transaction it refers to.
pub open spec fn amount_behind(account: AccountState, instruction: Instruction) -> Number {
    match instruction {
        Instruction::Deposit { amount, .. } => amount,
        Instruction::Withdrawal { amount, .. } => amount,
        Instruction::Dispute { tx, .. } => amount_of(account, tx),
        Instruction::Resolve { tx, .. } => amount_of(account, tx),
        Instruction::Chargeback { tx, .. } => amount_of(account, tx),
    }
}

/// As long as the two balances and twice the amount together stay below about 7.9 * 10^24,
/// nothing overflows.
#[verifier::rlimit(30)]
#[verifier::spinoff_prover]
pub proof fn ordinary_instructions_never_overflow(account: AccountState, instruction: Instruction)
    requires
        account.valid(),
        is_valid(instruction),
        size(account.available) + size(account.held) + 2 * size(
            amount_behind(account, instruction),
        ) <= decimal::MAX_MANTISSA,
    ensures
        performed(account, instruction) matches Err(error) ==> !(error is Overflow),
{
    let scale = amount::SCALE as nat;
    let available = account.available;
    let held = account.held;
    let x = amount_behind(account, instruction);
    ordinary_numbers_never_overflow(available, x);
    ordinary_numbers_never_overflow(held, x);
    let more = decimal::exact_sum(available, x);
    let less = decimal::exact_difference(available, x);
    let more_held = decimal::exact_sum(held, x);
    let less_held = decimal::exact_difference(held, x);
    decimal::exact_sums_add_up(available, x, scale);
    decimal::exact_differences_add_up(available, x, scale);
    match instruction {
        Instruction::Deposit { .. } => {
            ordinary_numbers_never_overflow(more, held);
        },
        Instruction::Withdrawal { .. } => {
            ordinary_numbers_never_overflow(less, held);
        },
        Instruction::Dispute { .. } => {
            decimal::exact_sums_add_up(held, x, scale);
            ordinary_numbers_never_overflow(less, more_held);
            ordinary_numbers_never_overflow(available, more_held);
        },
        _ => {
            decimal::exact_differences_add_up(held, x, scale);
            ordinary_numbers_never_overflow(more, less_held);
            ordinary_numbers_never_overflow(available, less_held);
        },
    }
}

/// A deposit that would take what is available beyond the largest number is refused, and the
/// account stays as it is.
pub proof fn a_deposit_out_of_range_is_refused(account: AccountState, tx: u32, amount: Number)
    requires
        account.valid(),
        amount::is_amount(amount),
        account.history matches Some(txs) && !txs.contains_key(tx),
        account.available.value() + amount.value() > decimal::MAX_MANTISSA * decimal::ten_to(
            decimal::MAX_SCALE as nat,
        ),
    ensures
        account.deposit(tx, amount) == Err::<AccountState, Rejection>(
            Rejection::Overflow(account.client),
        ),
{
    sums_add_values(account.available, amount);
    if decimal::representable(account.available.value() + amount.value()) {
        decimal::every_decimal_is_in_range(account.available.value() + amount.value());
    }
}

/// `record` is under dispute.
pub open spec fn is_disputed(record: Retained) -> bool {
    record.state == TxState::DisputedDeposit || record.state == TxState::DisputedWithdrawal
}

/// What a transaction adds to the funds under dispute.
pub open spec fn disputed_in(txs: Map<u32, Retained>, tx: u32) -> int {
    if txs.contains_key(tx) && is_disputed(txs[tx]) {
        txs[tx].amount.value()
    } else {
        0
    }
}

/// The amounts under dispute together, of the transactions with an ID below `limit`.
pub open spec fn disputed_below(txs: Map<u32, Retained>, limit: nat) -> int
    decreases limit,
{
    if limit == 0 {
        0
    } else {
        disputed_below(txs, (limit - 1) as nat) + disputed_in(txs, (limit - 1) as u32)
    }
}

/// The amounts under dispute together.
pub open spec fn disputed(txs: Map<u32, Retained>) -> int {
    disputed_below(txs, 0x1_0000_0000)
}

/// Where two histories differ in one transaction, so do the funds under dispute.
proof fn one_change_shifts_the_disputed(
    before: Map<u32, Retained>,
    after: Map<u32, Retained>,
    tx: u32,
    limit: nat,
)
    requires
        limit <= 0x1_0000_0000,
        forall|other: u32|
            other != tx ==> #[trigger] disputed_in(after, other) == disputed_in(before, other),
    ensures
        disputed_below(after, limit) == disputed_below(before, limit) + if tx < limit {
            disputed_in(after, tx) - disputed_in(before, tx)
        } else {
            0
        },
    decreases limit,
{
    if limit > 0 {
        one_change_shifts_the_disputed(before, after, tx, (limit - 1) as nat);
        assert(disputed_in(after, (limit - 1) as u32) == disputed_in(after, (limit - 1) as u32));
    }
}

/// No transaction, nothing under dispute.
proof fn nothing_is_disputed_at_first(limit: nat)
    ensures
        disputed_below(Map::empty(), limit) == 0,
    decreases limit,
{
    if limit > 0 {
        nothing_is_disputed_at_first((limit - 1) as nat);
    }
}

/// The funds held are the amounts under dispute, together.
pub open spec fn holds_what_is_disputed(account: AccountState) -> bool {
    account.history matches Some(txs) ==> account.held.value() == disputed(txs)
}

/// A new account holds nothing, and nothing is under dispute.
pub proof fn a_new_account_holds_what_is_disputed(client: u16, disputable_withdrawals: bool)
    ensures
        holds_what_is_disputed(AccountState::opened(client, disputable_withdrawals)),
{
    nothing_is_disputed_at_first(0x1_0000_0000);
}

/// At every point the funds held in an open account are exactly the amounts under dispute.
pub proof fn held_funds_are_the_disputed_ones(account: AccountState, instruction: Instruction)
    requires
        account.valid(),
        is_valid(instruction),
        holds_what_is_disputed(account),
    ensures
        performed(account, instruction) matches Ok(next) ==> holds_what_is_disputed(next),
{
    if let Ok(next) = performed(account, instruction) {
        if next.history is Some {
            money_moves_as_told(account, instruction);
            one_change_shifts_the_disputed(
                account.history->0,
                next.history->0,
                instruction.tx(),
                0x1_0000_0000,
            );
        }
    }
}

/// A balance after it was to change by so much; without an amount it is to stay as it is.
pub open spec fn changed_by(before: Number, by: Option<int>, after: Number) -> bool {
    match by {
        Some(by) => after.value() == before.value() + by && after.fits() && after.scale
            <= amount::SCALE,
        None => after == before,
    }
}

/// The amount of a change; nothing where there is none.
pub open spec fn change(by: Option<int>) -> int {
    match by {
        Some(by) => by,
        None => 0,
    }
}

/// `outcome` is the account with both balances changed by so much and with another history. It
/// is an overflow exactly if a balance or the total could not be represented, and nothing else
/// of the account changes.
pub open spec fn settles(
    before: AccountState,
    available: Option<int>,
    held: Option<int>,
    history: Option<Map<u32, Retained>>,
    outcome: Result<AccountState, Rejection>,
) -> bool {
    let new_available = before.available.value() + change(available);
    let new_held = before.held.value() + change(held);
    if decimal::representable(new_available) && decimal::representable(new_held)
        && decimal::representable(new_available + new_held) {
        outcome matches Ok(after) && {
            &&& changed_by(before.available, available, after.available)
            &&& changed_by(before.held, held, after.held)
            &&& after.history == history
            &&& after.client == before.client
            &&& after.disputable_withdrawals == before.disputable_withdrawals
        }
    } else {
        outcome == Err::<AccountState, Rejection>(Rejection::Overflow(before.client))
    }
}

/// What is to come of a deposit: a locked account refuses it, and so does one that still
/// retains a transaction under the ID. Otherwise the amount is available and nothing else
/// moves, and the deposit can be disputed for its amount from then on.
pub open spec fn deposit_rule(
    before: AccountState,
    tx: u32,
    amount: Number,
    outcome: Result<AccountState, Rejection>,
) -> bool {
    match before.history {
        None => outcome == Err::<AccountState, Rejection>(Rejection::AccountLocked(before.client)),
        Some(txs) => if txs.contains_key(tx) {
            outcome == Err::<AccountState, Rejection>(
                Rejection::DuplicateTx { client: before.client, tx },
            )
        } else {
            settles(
                before,
                Some(amount.value()),
                None,
                Some(txs.insert(tx, Retained { amount, state: TxState::Deposit })),
                outcome,
            )
        },
    }
}

/// What is to come of a withdrawal: it is refused for want of funds exactly if less is available
/// than the amount, whatever is held. Otherwise the amount is no longer available and nothing
/// else moves. Only where withdrawals can be disputed is it retained.
pub open spec fn withdrawal_rule(
    before: AccountState,
    tx: u32,
    amount: Number,
    outcome: Result<AccountState, Rejection>,
) -> bool {
    match before.history {
        None => outcome == Err::<AccountState, Rejection>(Rejection::AccountLocked(before.client)),
        Some(txs) => if txs.contains_key(tx) {
            outcome == Err::<AccountState, Rejection>(
                Rejection::DuplicateTx { client: before.client, tx },
            )
        } else if before.available.value() < amount.value() {
            outcome == Err::<AccountState, Rejection>(
                Rejection::InsufficientFunds {
                    client: before.client,
                    available: before.available.text(),
                    requested: amount.text(),
                },
            )
        } else {
            settles(
                before,
                Some(-amount.value()),
                None,
                if before.disputable_withdrawals {
                    Some(txs.insert(tx, Retained { amount, state: TxState::Withdrawal }))
                } else {
                    Some(txs)
                },
                outcome,
            )
        },
    }
}

/// What is to come of a dispute: whatever the balances are, a deposit that is not under dispute
/// moves from available to held, even if that leaves less than nothing available, and a
/// withdrawal is held on top of what there is.
pub open spec fn dispute_rule(
    before: AccountState,
    tx: u32,
    outcome: Result<AccountState, Rejection>,
) -> bool {
    match before.history {
        None => outcome == Err::<AccountState, Rejection>(Rejection::AccountLocked(before.client)),
        Some(txs) => if !txs.contains_key(tx) {
            outcome == Err::<AccountState, Rejection>(
                Rejection::UnknownTx { client: before.client, tx },
            )
        } else {
            let amount = txs[tx].amount;
            match txs[tx].state {
                TxState::Deposit => settles(
                    before,
                    Some(-amount.value()),
                    Some(amount.value()),
                    Some(txs.insert(tx, Retained { amount, state: TxState::DisputedDeposit })),
                    outcome,
                ),
                TxState::Withdrawal => settles(
                    before,
                    None,
                    Some(amount.value()),
                    Some(txs.insert(tx, Retained { amount, state: TxState::DisputedWithdrawal })),
                    outcome,
                ),
                _ => outcome == Err::<AccountState, Rejection>(
                    Rejection::AlreadyDisputed { client: before.client, tx },
                ),
            }
        },
    }
}

/// What is to come of a resolve: whatever the balances are, a deposit under dispute moves back
/// from held to available, and a withdrawal under dispute is no longer held. Either is then
/// forgotten.
pub open spec fn resolve_rule(
    before: AccountState,
    tx: u32,
    outcome: Result<AccountState, Rejection>,
) -> bool {
    match before.history {
        None => outcome == Err::<AccountState, Rejection>(Rejection::AccountLocked(before.client)),
        Some(txs) => if !txs.contains_key(tx) {
            outcome == Err::<AccountState, Rejection>(
                Rejection::UnknownTx { client: before.client, tx },
            )
        } else {
            let amount = txs[tx].amount.value();
            match txs[tx].state {
                TxState::DisputedDeposit => settles(
                    before,
                    Some(amount),
                    Some(-amount),
                    Some(txs.remove(tx)),
                    outcome,
                ),
                TxState::DisputedWithdrawal => settles(
                    before,
                    None,
                    Some(-amount),
                    Some(txs.remove(tx)),
                    outcome,
                ),
                _ => outcome == Err::<AccountState, Rejection>(
                    Rejection::NotDisputed { client: before.client, tx },
                ),
            }
        },
    }
}

/// What is to come of a chargeback: whatever the balances are, a deposit under dispute is gone
/// from what is held, and a withdrawal under dispute moves from held to available. Either way
/// the account is locked.
pub open spec fn chargeback_rule(
    before: AccountState,
    tx: u32,
    outcome: Result<AccountState, Rejection>,
) -> bool {
    match before.history {
        None => outcome == Err::<AccountState, Rejection>(Rejection::AccountLocked(before.client)),
        Some(txs) => if !txs.contains_key(tx) {
            outcome == Err::<AccountState, Rejection>(
                Rejection::UnknownTx { client: before.client, tx },
            )
        } else {
            let amount = txs[tx].amount.value();
            match txs[tx].state {
                TxState::DisputedDeposit => settles(before, None, Some(-amount), None, outcome),
                TxState::DisputedWithdrawal => settles(
                    before,
                    Some(amount),
                    Some(-amount),
                    None,
                    outcome,
                ),
                _ => outcome == Err::<AccountState, Rejection>(
                    Rejection::NotDisputed { client: before.client, tx },
                ),
            }
        },
    }
}

/// What is to come of an instruction to an account.
pub open spec fn account_rule(
    before: AccountState,
    instruction: Instruction,
    outcome: Result<AccountState, Rejection>,
) -> bool {
    match instruction {
        Instruction::Deposit { tx, amount, .. } => deposit_rule(before, tx, amount, outcome),
        Instruction::Withdrawal { tx, amount, .. } => withdrawal_rule(before, tx, amount, outcome),
        Instruction::Dispute { tx, .. } => dispute_rule(before, tx, outcome),
        Instruction::Resolve { tx, .. } => resolve_rule(before, tx, outcome),
        Instruction::Chargeback { tx, .. } => chargeback_rule(before, tx, outcome),
    }
}

/// The value of a number that can be held can be represented.
proof fn a_balance_can_be_represented(n: Number)
    requires
        n.fits(),
    ensures
        decimal::representable(n.value()),
{
}

/// Adding to a balance keeps to the change it was told.
proof fn adding_changes_a_balance(a: Number, b: Number)
    requires
        a.fits(),
        a.scale <= amount::SCALE,
        b.scale <= amount::SCALE,
    ensures
        decimal::lossless_sum(a, b) is Some <==> decimal::representable(a.value() + b.value()),
        decimal::lossless_sum(a, b) matches Some(n) ==> changed_by(a, Some(b.value()), n),
        decimal::lossless_difference(a, b) is Some <==> decimal::representable(
            a.value() - b.value(),
        ),
        decimal::lossless_difference(a, b) matches Some(n) ==> changed_by(a, Some(-b.value()), n),
        decimal::representable(a.value()),
{
    sums_add_values(a, b);
    differences_subtract_values(a, b);
    a_balance_can_be_represented(a);
}

/// A deposit is accepted and refused exactly as it is to be, and does what it is to do.
pub proof fn a_deposit_keeps_to_the_rule(account: AccountState, tx: u32, amount: Number)
    requires
        account.valid(),
        amount::is_amount(amount),
    ensures
        deposit_rule(account, tx, amount, account.deposit(tx, amount)),
{
    adding_changes_a_balance(account.available, amount);
    adding_changes_a_balance(account.held, amount);
    if let Some(more) = decimal::lossless_sum(account.available, amount) {
        sums_add_values(more, account.held);
    }
}

/// A withdrawal is accepted and refused exactly as it is to be, and does what it is to do.
pub proof fn a_withdrawal_keeps_to_the_rule(account: AccountState, tx: u32, amount: Number)
    requires
        account.valid(),
        amount::is_amount(amount),
    ensures
        withdrawal_rule(account, tx, amount, account.withdraw(tx, amount)),
{
    adding_changes_a_balance(account.available, amount);
    adding_changes_a_balance(account.held, amount);
    if let Some(less) = decimal::lossless_difference(account.available, amount) {
        sums_add_values(less, account.held);
    }
}

/// A dispute is accepted and refused exactly as it is to be, and does what it is to do.
pub proof fn a_dispute_keeps_to_the_rule(account: AccountState, tx: u32)
    requires
        account.valid(),
    ensures
        dispute_rule(account, tx, account.dispute(tx)),
{
    let amount = amount_of(account, tx);
    adding_changes_a_balance(account.available, amount);
    adding_changes_a_balance(account.held, amount);
    if let Some(more_held) = decimal::lossless_sum(account.held, amount) {
        sums_add_values(account.available, more_held);
        if let Some(less) = decimal::lossless_difference(account.available, amount) {
            sums_add_values(less, more_held);
        }
    }
}

/// A resolve is accepted and refused exactly as it is to be, and does what it is to do.
pub proof fn a_resolve_keeps_to_the_rule(account: AccountState, tx: u32)
    requires
        account.valid(),
    ensures
        resolve_rule(account, tx, account.resolve(tx)),
{
    let amount = amount_of(account, tx);
    adding_changes_a_balance(account.available, amount);
    adding_changes_a_balance(account.held, amount);
    if let Some(less_held) = decimal::lossless_difference(account.held, amount) {
        sums_add_values(account.available, less_held);
        if let Some(more) = decimal::lossless_sum(account.available, amount) {
            sums_add_values(more, less_held);
        }
    }
}

/// A chargeback is accepted and refused exactly as it is to be, and does what it is to do.
pub proof fn a_chargeback_keeps_to_the_rule(account: AccountState, tx: u32)
    requires
        account.valid(),
    ensures
        chargeback_rule(account, tx, account.chargeback(tx)),
{
    let amount = amount_of(account, tx);
    adding_changes_a_balance(account.available, amount);
    adding_changes_a_balance(account.held, amount);
    if let Some(less_held) = decimal::lossless_difference(account.held, amount) {
        sums_add_values(account.available, less_held);
        if let Some(more) = decimal::lossless_sum(account.available, amount) {
            sums_add_values(more, less_held);
        }
    }
}

/// Whatever the instruction, an account makes of it what it is to make of it.
pub proof fn an_account_keeps_to_the_rules(account: AccountState, instruction: Instruction)
    requires
        account.valid(),
        is_valid(instruction),
    ensures
        account_rule(account, instruction, performed(account, instruction)),
{
    match instruction {
        Instruction::Deposit { tx, amount, .. } => {
            a_deposit_keeps_to_the_rule(account, tx, amount);
        },
        Instruction::Withdrawal { tx, amount, .. } => {
            a_withdrawal_keeps_to_the_rule(account, tx, amount);
        },
        Instruction::Dispute { tx, .. } => {
            a_dispute_keeps_to_the_rule(account, tx);
        },
        Instruction::Resolve { tx, .. } => {
            a_resolve_keeps_to_the_rule(account, tx);
        },
        Instruction::Chargeback { tx, .. } => {
            a_chargeback_keeps_to_the_rule(account, tx);
        },
    }
}

/// A balance is written with as many decimal places as it takes for itself and for what is
/// deposited or withdrawn, as long as they all can be held, and no more.
pub proof fn decimal_places_are_kept(account: AccountState, tx: u32, amount: Number)
    requires
        account.available.mantissa != 0,
        amount.mantissa != 0,
    ensures
        ({
            let scale = if account.available.scale >= amount.scale {
                account.available.scale
            } else {
                amount.scale
            };
            let sum = account.available.at_scale(scale) + amount.at_scale(scale);
            let rest = account.available.at_scale(scale) - amount.at_scale(scale);
            &&& (account.deposit(tx, amount) matches Ok(next) && -decimal::MAX_MANTISSA <= sum
                <= decimal::MAX_MANTISSA) ==> account.deposit(tx, amount)->Ok_0.available == (
            Number { mantissa: sum, scale })
            &&& (account.withdraw(tx, amount) matches Ok(next) && -decimal::MAX_MANTISSA <= rest
                <= decimal::MAX_MANTISSA) ==> account.withdraw(tx, amount)->Ok_0.available == (
            Number { mantissa: rest, scale })
        }),
{
}

/// The row of an account reports its client, both balances as they are, and a total that is
/// the sum of the two, locked or not.
pub proof fn a_row_reports_the_account(account: AccountState, locked: bool)
    requires
        account.valid(),
    ensures
        ({
            let row = account.row(locked);
            &&& row.client == account.client
            &&& row.available == account.available
            &&& row.held == account.held
            &&& row.total.value() == account.available.value() + account.held.value()
            &&& row.total.fits() && row.total.scale <= amount::SCALE
            &&& row.locked == locked
        }),
{
    sums_add_values(account.available, account.held);
}

} // verus!
