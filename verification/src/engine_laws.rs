//! What holds of an engine whatever is applied to it.

use crate::account::{AccountState, Row, TxState};
use crate::account_laws;
use crate::amount;
use crate::decimal::Number;
use crate::engine;
use crate::engine::EngineState;
use crate::error::Rejection;
use crate::record::Instruction;
use vstd::prelude::*;

verus! {

/// No two rows report the same client.
pub open spec fn one_row_each(rows: Seq<Row>) -> bool {
    forall|i: int, j: int|
        0 <= i < j < rows.len() ==> (#[trigger] rows[i]).client != (#[trigger] rows[j]).client
}

/// What every engine keeps to: an account is filed under its own client and is open, a frozen
/// client has no account, and every evicted row reports another frozen client as locked.
pub open spec fn valid(engine: EngineState) -> bool {
    &&& forall|client: u16| #[trigger]
        engine.accounts.contains_key(client) ==> {
            &&& engine.accounts[client].valid()
            &&& engine.accounts[client].client == client
            &&& engine.accounts[client].disputable_withdrawals == engine.disputable_withdrawals
            &&& engine.accounts[client].history is Some
            &&& !engine.frozen.contains(client)
        }
    &&& forall|i: int|
        0 <= i < engine.evicted.len() ==> (#[trigger] engine.evicted[i]).locked
            && engine.frozen.contains(engine.evicted[i].client)
    &&& one_row_each(engine.evicted)
}

/// A new engine is valid.
pub proof fn a_new_engine_is_valid(disputable_withdrawals: bool)
    ensures
        valid(EngineState::empty(disputable_withdrawals)),
{
}

/// Every instruction leaves a valid engine valid.
pub proof fn every_engine_stays_valid(engine: EngineState, instruction: Instruction)
    requires
        valid(engine),
        account_laws::is_valid(instruction),
    ensures
        valid(engine.apply(instruction).0),
{
    let client = instruction.client();
    let account = engine.opened(client);
    account_laws::a_new_account_is_valid(client, engine.disputable_withdrawals);
    account_laws::every_account_stays_valid(account, instruction);
    account_laws::only_a_chargeback_locks(account, instruction);
}

/// An instruction touches nothing but its own client: every other account, and whether any
/// other client is frozen, stays as it was, and rows already evicted stay where they are.
pub proof fn an_instruction_touches_its_own_client_only(
    engine: EngineState,
    instruction: Instruction,
    other: u16,
)
    requires
        other != instruction.client(),
    ensures
        ({
            let next = engine.apply(instruction).0;
            &&& next.accounts.contains_key(other) == engine.accounts.contains_key(other)
            &&& engine.accounts.contains_key(other) ==> next.accounts[other]
                == engine.accounts[other]
            &&& next.frozen.contains(other) == engine.frozen.contains(other)
            &&& engine.evicted.is_prefix_of(next.evicted)
        }),
{
}

/// A frozen client is refused whatever it asks for, and nothing changes.
pub proof fn a_frozen_client_is_refused(engine: EngineState, instruction: Instruction)
    requires
        engine.frozen.contains(instruction.client()),
    ensures
        engine.apply(instruction) == (
            engine,
            Err::<(), Rejection>(Rejection::AccountLocked(instruction.client())),
        ),
{
}

/// A frozen client stays frozen.
pub proof fn a_frozen_client_stays_frozen(
    engine: EngineState,
    instruction: Instruction,
    client: u16,
)
    requires
        engine.frozen.contains(client),
    ensures
        engine.apply(instruction).0.frozen.contains(client),
{
}

/// A chargeback that succeeds freezes its client: the account leaves, and its row, which says
/// that it is locked, is the next one evicted.
pub proof fn a_chargeback_freezes_the_client(engine: EngineState, client: u16, tx: u32)
    requires
        engine.apply(Instruction::Chargeback { client, tx }).1 is Ok,
    ensures
        ({
            let next = engine.apply(Instruction::Chargeback { client, tx }).0;
            &&& next.frozen.contains(client)
            &&& !next.accounts.contains_key(client)
            &&& next.evicted == engine.evicted.push(
                engine.accounts[client].chargeback(tx)->Ok_0.row(true),
            )
        }),
{
}

/// A refused instruction changes no account that was there, freezes nobody and evicts nothing.
/// At most it leaves a deposit's or withdrawal's new client with an empty account.
pub proof fn a_refused_instruction_moves_nothing(engine: EngineState, instruction: Instruction)
    requires
        engine.apply(instruction).1 is Err,
    ensures
        ({
            let next = engine.apply(instruction).0;
            let client = instruction.client();
            next == engine || {
                &&& instruction is Deposit || instruction is Withdrawal
                &&& !engine.accounts.contains_key(client)
                &&& next == engine.holding(
                    client,
                    AccountState::opened(client, engine.disputable_withdrawals),
                )
            }
        }),
{
    let client = instruction.client();
    if engine.accounts.contains_key(client) {
        assert(engine.holding(client, engine.accounts[client]) =~= engine);
    }
}

/// Only a deposit or a withdrawal brings an account into existence.
pub proof fn a_reference_opens_no_account(engine: EngineState, instruction: Instruction)
    requires
        !(instruction is Deposit || instruction is Withdrawal),
    ensures
        engine.apply(instruction).0.accounts.dom().subset_of(engine.accounts.dom()),
{
}

/// A client can refer to its own transactions only: a dispute, a resolve or a chargeback of a
/// client is answered from that client's own account, and without one as unknown.
pub proof fn references_resolve_within_the_client(
    engine: EngineState,
    other_engine: EngineState,
    instruction: Instruction,
)
    requires
        ({
            let client = instruction.client();
            &&& engine.frozen.contains(client) == other_engine.frozen.contains(client)
            &&& engine.opened(client) == other_engine.opened(client)
            &&& engine.accounts.contains_key(client) == other_engine.accounts.contains_key(client)
        }),
    ensures
        engine.apply(instruction).1 == other_engine.apply(instruction).1,
{
}

/// Taking the evicted rows, or draining all rows, leaves a valid engine valid.
pub proof fn taking_rows_keeps_an_engine_valid(engine: EngineState)
    requires
        valid(engine),
    ensures
        valid(EngineState { evicted: Seq::empty(), ..engine }),
        valid(EngineState { accounts: Map::empty(), evicted: Seq::empty(), ..engine }),
{
}

/// A new account is the client's own, holds nothing, and has nothing to refer to.
pub proof fn a_new_account_is_empty(client: u16, disputable_withdrawals: bool)
    ensures
        ({
            let account = AccountState::opened(client, disputable_withdrawals);
            &&& account.client == client
            &&& account.disputable_withdrawals == disputable_withdrawals
            &&& account.available == (Number { mantissa: 0, scale: 0 })
            &&& account.held == (Number { mantissa: 0, scale: 0 })
            &&& account.history matches Some(txs) && forall|tx: u32| !txs.contains_key(tx)
        }),
{
}

/// A new engine knows nobody, has frozen nobody and owes no row.
pub proof fn a_new_engine_is_empty(disputable_withdrawals: bool)
    ensures
        ({
            let engine = EngineState::empty(disputable_withdrawals);
            &&& engine.disputable_withdrawals == disputable_withdrawals
            &&& forall|client: u16| !engine.accounts.contains_key(client)
            &&& forall|client: u16| !engine.frozen.contains(client)
            &&& engine.evicted.len() == 0
        }),
{
}

/// The account that an instruction of the client is for: the client's own, or a new one.
pub open spec fn addressed(engine: EngineState, client: u16) -> AccountState {
    if engine.accounts.contains_key(client) {
        engine.accounts[client]
    } else {
        AccountState {
            client,
            disputable_withdrawals: engine.disputable_withdrawals,
            available: Number { mantissa: 0, scale: 0 },
            held: Number { mantissa: 0, scale: 0 },
            history: Some(Map::empty()),
        }
    }
}

/// `row` reports `account` as locked.
pub open spec fn reports_as_locked(row: Row, account: AccountState) -> bool {
    &&& row.client == account.client
    &&& row.available == account.available
    &&& row.held == account.held
    &&& row.total.value() == account.available.value() + account.held.value()
    &&& row.total.fits() && row.total.scale <= amount::SCALE
    &&& row.locked
}

/// `after` is `before` with one account stored, and nothing else of it changed.
pub open spec fn stored(
    before: EngineState,
    client: u16,
    account: AccountState,
    after: EngineState,
) -> bool {
    &&& after.accounts == before.accounts.insert(client, account)
    &&& after.frozen == before.frozen
    &&& after.evicted == before.evicted
    &&& after.disputable_withdrawals == before.disputable_withdrawals
}

/// `after` is `before` with one client frozen and the account gone, whose row waits behind those
/// that waited before.
pub open spec fn evicted(
    before: EngineState,
    client: u16,
    account: AccountState,
    after: EngineState,
) -> bool {
    &&& after.accounts == before.accounts.remove(client)
    &&& after.frozen == before.frozen.insert(client)
    &&& after.evicted.len() == before.evicted.len() + 1
    &&& after.evicted.drop_last() == before.evicted
    &&& reports_as_locked(after.evicted.last(), account)
    &&& after.disputable_withdrawals == before.disputable_withdrawals
}

/// What is to come of an instruction to an engine: a frozen client is refused, and so is a
/// reference of a client without an account. Anything else is answered by the account that it
/// is for. What the account comes to is stored, or evicted after a chargeback. A refusal leaves
/// everything as it was, but for the account that a deposit or withdrawal opens.
pub open spec fn engine_rule(
    before: EngineState,
    instruction: Instruction,
    after: EngineState,
    answer: Result<(), Rejection>,
) -> bool {
    let client = instruction.client();
    let account = addressed(before, client);
    let opens = instruction is Deposit || instruction is Withdrawal;
    if before.frozen.contains(client) {
        &&& after == before
        &&& answer == Err::<(), Rejection>(Rejection::AccountLocked(client))
    } else if !before.accounts.contains_key(client) && !opens {
        &&& after == before
        &&& answer == Err::<(), Rejection>(
            Rejection::UnknownTx { client, tx: instruction.tx() },
        )
    } else {
        match answer {
            Ok(()) => exists|next: AccountState|
                #![trigger account_laws::account_rule(account, instruction, Ok(next))]
                account_laws::account_rule(account, instruction, Ok(next)) && if instruction
                    is Chargeback {
                    evicted(before, client, next, after)
                } else {
                    stored(before, client, next, after)
                },
            Err(rejection) => account_laws::account_rule(account, instruction, Err(rejection))
                && if opens {
                stored(before, client, account, after)
            } else {
                after == before
            },
        }
    }
}

/// Whatever the instruction, an engine makes of it what it is to make of it.
pub proof fn an_engine_keeps_to_the_rule(engine: EngineState, instruction: Instruction)
    requires
        valid(engine),
        account_laws::is_valid(instruction),
    ensures
        engine_rule(
            engine,
            instruction,
            engine.apply(instruction).0,
            engine.apply(instruction).1,
        ),
{
    let client = instruction.client();
    let account = addressed(engine, client);
    let after = engine.apply(instruction).0;
    account_laws::a_new_account_is_valid(client, engine.disputable_withdrawals);
    assert(account == engine.opened(client));
    account_laws::an_account_keeps_to_the_rules(account, instruction);
    account_laws::every_account_stays_valid(account, instruction);
    if let Ok(next) = account_laws::performed(account, instruction) {
        assert(account_laws::account_rule(account, instruction, Ok(next)));
        account_laws::a_row_reports_the_account(next, true);
        if instruction is Chargeback && engine.apply(instruction).1 is Ok {
            assert(after.evicted.drop_last() =~= engine.evicted);
        }
    }
}

/// For a client that is not frozen and has an account, the engine answers what the account
/// answers, and accepts exactly what the account accepts. The account is then stored, or after
/// a chargeback gone.
pub proof fn the_account_decides(engine: EngineState, instruction: Instruction)
    requires
        !engine.frozen.contains(instruction.client()),
        engine.accounts.contains_key(instruction.client()),
    ensures
        ({
            let client = instruction.client();
            let (after, answer) = engine.apply(instruction);
            match account_laws::performed(engine.accounts[client], instruction) {
                Ok(next) => answer is Ok && if instruction is Chargeback {
                    !after.accounts.contains_key(client) && after.frozen.contains(client)
                } else {
                    after.accounts.contains_key(client) && after.accounts[client] == next
                        && !after.frozen.contains(client)
                },
                Err(rejection) => answer == Err::<(), Rejection>(rejection)
                    && after.accounts.contains_key(client) && after.accounts[client]
                    == engine.accounts[client],
            }
        }),
{
}

/// An instruction that the engine accepts shifts what it holds for the client by exactly what
/// the instruction says: what is stored afterwards, or evicted after a chargeback, differs by
/// that from what was stored before, which is nothing for a new client.
pub proof fn an_accepted_instruction_shifts_the_account(
    engine: EngineState,
    instruction: Instruction,
)
    requires
        valid(engine),
        account_laws::is_valid(instruction),
        engine.apply(instruction).1 is Ok,
    ensures
        ({
            let client = instruction.client();
            let before = addressed(engine, client);
            let after = engine.apply(instruction).0;
            let (available, held) = account_laws::told(before, instruction);
            if instruction is Chargeback {
                let row = after.evicted.last();
                &&& row.client == client
                &&& row.available.value() == before.available.value() + available
                &&& row.held.value() == before.held.value() + held
                &&& row.total.value() == row.available.value() + row.held.value()
            } else {
                &&& after.accounts.contains_key(client)
                &&& account_laws::shifted(before, after.accounts[client], available, held)
            }
        }),
{
    let before = addressed(engine, instruction.client());
    account_laws::a_new_account_is_valid(instruction.client(), engine.disputable_withdrawals);
    account_laws::money_moves_as_told(before, instruction);
    an_engine_keeps_to_the_rule(engine, instruction);
}

/// A deposit that the engine accepts is credited: the client has that much more available, as
/// much held as before, and a deposit of that amount to dispute.
pub proof fn an_accepted_deposit_is_credited(
    engine: EngineState,
    client: u16,
    tx: u32,
    amount: Number,
)
    requires
        valid(engine),
        amount::is_amount(amount),
        engine.apply(Instruction::Deposit { client, tx, amount }).1 is Ok,
    ensures
        ({
            let before = addressed(engine, client);
            let after = engine.apply(Instruction::Deposit { client, tx, amount }).0;
            &&& after.accounts.contains_key(client)
            &&& after.accounts[client].available.value() == before.available.value()
                + amount.value()
            &&& after.accounts[client].held == before.held
            &&& after.accounts[client].history matches Some(txs) && txs.contains_key(tx)
                && txs[tx].amount == amount && txs[tx].state == TxState::Deposit
        }),
{
    an_engine_keeps_to_the_rule(engine, Instruction::Deposit { client, tx, amount });
}

/// The rows that an engine owes are those that wait, in their order, and behind them one row for
/// each open account, in ascending order of the clients, with the balances of the account and
/// their sum.
pub proof fn the_rows_an_engine_owes(engine: EngineState)
    requires
        valid(engine),
    ensures
        ({
            let rows = engine.reported();
            let waiting = engine.evicted.len();
            &&& waiting <= rows.len()
            &&& rows.take(waiting as int) == engine.evicted
            &&& forall|client: u16| #[trigger]
                engine.accounts.contains_key(client) <==> exists|i: int|
                    waiting <= i < rows.len() && (#[trigger] rows[i]).client == client
            &&& forall|i: int, j: int|
                waiting <= i < j < rows.len() ==> (#[trigger] rows[i]).client < (
                #[trigger] rows[j]).client
            &&& forall|i: int|
                waiting <= i < rows.len() ==> {
                    let row = #[trigger] rows[i];
                    let account = engine.accounts[row.client];
                    &&& row.available == account.available
                    &&& row.held == account.held
                    &&& row.total.value() == account.available.value() + account.held.value()
                    &&& !row.locked
                }
        }),
{
    let rows = engine.reported();
    let waiting = engine.evicted.len();
    let clients = engine.clients();
    engine::clients_are_listed_in_order(engine.accounts.dom(), engine::CLIENTS as nat);
    assert(rows.take(waiting as int) =~= engine.evicted);
    assert forall|i: int| waiting <= i < rows.len() implies {
        let row = #[trigger] rows[i];
        let account = engine.accounts[row.client];
        &&& engine.accounts.contains_key(row.client)
        &&& row.client == clients[i - waiting]
        &&& row.available == account.available
        &&& row.held == account.held
        &&& row.total.value() == account.available.value() + account.held.value()
        &&& !row.locked
    } by {
        let client = clients[i - waiting];
        assert(clients.contains(client));
        assert(engine.accounts.contains_key(client));
        account_laws::a_row_reports_the_account(engine.accounts[client], false);
    }
    assert forall|client: u16| #[trigger]
        engine.accounts.contains_key(client) implies exists|i: int|
        waiting <= i < rows.len() && (#[trigger] rows[i]).client == client by {
        assert(clients.contains(client));
        let i = choose|i: int| 0 <= i < clients.len() && clients[i] == client;
        assert(rows[waiting + i].client == client);
    }
}

} // verus!
