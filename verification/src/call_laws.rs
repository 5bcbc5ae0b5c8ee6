//! What the calls of the library come to, stated of the calls themselves.

use crate::account::{Account, AccountRow, AccountState};
use crate::account_laws;
use crate::amount;
use crate::amount::Amount;
use crate::decimal;
use crate::decimal::{Decimal, Number};
use crate::engine;
use crate::engine::Engine;
use crate::engine_laws;
use crate::error::{RecordError, Rejection};
use crate::record;
use crate::record::{Instruction, RawRecord, Transaction};
use vstd::prelude::*;

verus! {

/// What a call on an account comes to: the account left behind, or why it was refused.
pub open spec fn came_to(result: Result<(), RecordError>, after: AccountState) -> Result<
    AccountState,
    Rejection,
> {
    match result {
        Ok(()) => Ok(after),
        Err(error) => Err(error@),
    }
}

/// An error says what it holds.
pub proof fn errors_say_what_they_hold(error: RecordError)
    ensures
        match error {
            RecordError::Malformed(cause) => error@ == Rejection::Malformed(cause@),
            RecordError::UnknownType(kind) => error@ == Rejection::UnknownType(kind@),
            RecordError::MissingAmount(kind) => error@ == Rejection::MissingAmount(kind@),
            RecordError::MalformedAmount(raw) => error@ == Rejection::MalformedAmount(raw@),
            RecordError::NegativeAmount(raw) => error@ == Rejection::NegativeAmount(raw@),
            RecordError::ExcessPrecision(raw) => error@ == Rejection::ExcessPrecision(raw@),
            RecordError::DuplicateTx { client, tx } => error@ == Rejection::DuplicateTx {
                client,
                tx,
            },
            RecordError::UnknownTx { client, tx } => error@ == Rejection::UnknownTx { client, tx },
            RecordError::AlreadyDisputed { client, tx } => error@ == Rejection::AlreadyDisputed {
                client,
                tx,
            },
            RecordError::NotDisputed { client, tx } => error@ == Rejection::NotDisputed {
                client,
                tx,
            },
            RecordError::InsufficientFunds { client, available, requested } => error@
                == Rejection::InsufficientFunds {
                client,
                available: available@,
                requested: requested@,
            },
            RecordError::AccountLocked(client) => error@ == Rejection::AccountLocked(client),
            RecordError::Overflow(client) => error@ == Rejection::Overflow(client),
        },
{
}

/// A transaction says what it holds.
pub proof fn transactions_say_what_they_hold(transaction: Transaction)
    ensures
        match transaction {
            Transaction::Deposit { client, tx, amount } => transaction@ == Instruction::Deposit {
                client,
                tx,
                amount: amount@,
            } && transaction@.client() == client && transaction@.tx() == tx,
            Transaction::Withdrawal { client, tx, amount } => transaction@
                == Instruction::Withdrawal { client, tx, amount: amount@ }
                && transaction@.client() == client && transaction@.tx() == tx,
            Transaction::Dispute { client, tx } => transaction@ == Instruction::Dispute {
                client,
                tx,
            } && transaction@.client() == client && transaction@.tx() == tx,
            Transaction::Resolve { client, tx } => transaction@ == Instruction::Resolve {
                client,
                tx,
            } && transaction@.client() == client && transaction@.tx() == tx,
            Transaction::Chargeback { client, tx } => transaction@ == Instruction::Chargeback {
                client,
                tx,
            } && transaction@.client() == client && transaction@.tx() == tx,
        },
{
}

/// A row says what it holds.
pub proof fn rows_say_what_they_hold(row: AccountRow)
    ensures
        row@.client == row.client,
        row@.available == row.available@,
        row@.held == row.held@,
        row@.total == row.total@,
        row@.locked == row.locked,
{
}

/// A deposit into an account, accepted or refused, comes to what it is to come to. A refusal
/// leaves the account as it was.
pub proof fn a_call_of_deposit(
    account: &mut Account,
    tx: u32,
    amount: Amount,
    result: Result<(), RecordError>,
)
    requires
        old(account)@.valid(),
        amount::is_amount(amount@),
        call_ensures(Account::deposit, (account, tx, amount), result),
    ensures
        account_laws::deposit_rule(old(account)@, tx, amount@, came_to(result, final(account)@)),
        result is Err ==> final(account)@ == old(account)@,
{
    account_laws::a_deposit_keeps_to_the_rule(old(account)@, tx, amount@);
}

/// A withdrawal from an account, accepted or refused, comes to what it is to come to. A refusal
/// leaves the account as it was.
pub proof fn a_call_of_withdraw(
    account: &mut Account,
    tx: u32,
    amount: Amount,
    result: Result<(), RecordError>,
)
    requires
        old(account)@.valid(),
        amount::is_amount(amount@),
        call_ensures(Account::withdraw, (account, tx, amount), result),
    ensures
        account_laws::withdrawal_rule(
            old(account)@,
            tx,
            amount@,
            came_to(result, final(account)@),
        ),
        result is Err ==> final(account)@ == old(account)@,
{
    account_laws::a_withdrawal_keeps_to_the_rule(old(account)@, tx, amount@);
}

/// A dispute in an account, accepted or refused, comes to what it is to come to. A refusal
/// leaves the account as it was.
pub proof fn a_call_of_dispute(account: &mut Account, tx: u32, result: Result<(), RecordError>)
    requires
        old(account)@.valid(),
        call_ensures(Account::dispute, (account, tx), result),
    ensures
        account_laws::dispute_rule(old(account)@, tx, came_to(result, final(account)@)),
        result is Err ==> final(account)@ == old(account)@,
{
    account_laws::a_dispute_keeps_to_the_rule(old(account)@, tx);
}

/// A resolve in an account, accepted or refused, comes to what it is to come to. A refusal
/// leaves the account as it was.
pub proof fn a_call_of_resolve(account: &mut Account, tx: u32, result: Result<(), RecordError>)
    requires
        old(account)@.valid(),
        call_ensures(Account::resolve, (account, tx), result),
    ensures
        account_laws::resolve_rule(old(account)@, tx, came_to(result, final(account)@)),
        result is Err ==> final(account)@ == old(account)@,
{
    account_laws::a_resolve_keeps_to_the_rule(old(account)@, tx);
}

/// A chargeback in an account, accepted or refused, comes to what it is to come to. A refusal
/// leaves the account as it was.
pub proof fn a_call_of_chargeback(account: &mut Account, tx: u32, result: Result<(), RecordError>)
    requires
        old(account)@.valid(),
        call_ensures(Account::chargeback, (account, tx), result),
    ensures
        account_laws::chargeback_rule(old(account)@, tx, came_to(result, final(account)@)),
        result is Err ==> final(account)@ == old(account)@,
{
    account_laws::a_chargeback_keeps_to_the_rule(old(account)@, tx);
}

/// An account shows its client, its balances, their sum, and whether it is locked, which it is
/// exactly if nothing can be referred to any more.
pub proof fn an_account_shows_what_it_holds(
    account: &Account,
    client: u16,
    available: Decimal,
    held: Decimal,
    total: Decimal,
    locked: bool,
)
    requires
        account@.valid(),
        call_ensures(Account::client, (account,), client),
        call_ensures(Account::available, (account,), available),
        call_ensures(Account::held, (account,), held),
        call_ensures(Account::total, (account,), total),
        call_ensures(Account::is_locked, (account,), locked),
    ensures
        client == account@.client,
        available@ == account@.available,
        held@ == account@.held,
        total@.value() == available@.value() + held@.value(),
        total@.scale <= 4,
        locked <==> account@.history is None,
{
    account_laws::the_total_is_the_sum(account@);
}

/// The row of an account holds what the account shows, whatever it is to say of the lock.
pub proof fn a_call_of_row(account: &Account, locked: bool, row: AccountRow)
    requires
        account@.valid(),
        call_ensures(Account::row, (account, locked), row),
    ensures
        row.client == account@.client,
        row.available@ == account@.available,
        row.held@ == account@.held,
        row.total@.value() == row.available@.value() + row.held@.value(),
        row.locked == locked,
{
    account_laws::a_row_reports_the_account(account@, locked);
}

/// A new account is the client's own, holds nothing, and has nothing to refer to. It is valid.
pub proof fn a_call_for_an_account(
    client: u16,
    withdrawals: bool,
    ordinary: Account,
    other: Account,
)
    requires
        call_ensures(Account::new, (client,), ordinary),
        call_ensures(Account::with_disputes, (client, withdrawals), other),
    ensures
        ordinary@ == engine_laws::addressed(
            engine::EngineState {
                disputable_withdrawals: false,
                accounts: Map::empty(),
                frozen: Set::empty(),
                evicted: Seq::empty(),
            },
            client,
        ),
        other@ == (AccountState { disputable_withdrawals: withdrawals, ..ordinary@ }),
        ordinary@.valid(),
        other@.valid(),
{
    account_laws::a_new_account_is_valid(client, withdrawals);
}

/// What applying a transaction is answered.
pub open spec fn answer(result: Result<(), RecordError>) -> Result<(), Rejection> {
    match result {
        Ok(()) => Ok(()),
        Err(error) => Err(error@),
    }
}

/// Applying a transaction to an engine comes to what it is to come to, and leaves the engine
/// valid.
pub proof fn a_call_of_apply(
    engine: &mut Engine,
    transaction: Transaction,
    result: Result<(), RecordError>,
)
    requires
        engine_laws::valid(old(engine)@),
        account_laws::is_valid(transaction@),
        call_ensures(Engine::apply, (engine, transaction), result),
    ensures
        engine_laws::engine_rule(old(engine)@, transaction@, final(engine)@, answer(result)),
        engine_laws::valid(final(engine)@),
{
    engine_laws::an_engine_keeps_to_the_rule(old(engine)@, transaction@);
    engine_laws::every_engine_stays_valid(old(engine)@, transaction@);
}

/// A new engine knows nobody, whatever it is sized for.
pub proof fn a_call_for_an_engine(
    clients: usize,
    withdrawals: bool,
    ordinary: Engine,
    sized: Engine,
    other: Engine,
    default: Engine,
)
    requires
        call_ensures(Engine::new, (), ordinary),
        call_ensures(Engine::default, (), default),
        call_ensures(Engine::with_capacity, (clients,), sized),
        call_ensures(Engine::with_disputes, (clients, withdrawals), other),
    ensures
        forall|client: u16| !ordinary@.accounts.contains_key(client),
        forall|client: u16| !ordinary@.frozen.contains(client),
        ordinary@.evicted.len() == 0,
        !ordinary@.disputable_withdrawals,
        sized@ == ordinary@,
        default@ == ordinary@,
        other@.disputable_withdrawals == withdrawals,
        other@.accounts == ordinary@.accounts,
        other@.frozen == ordinary@.frozen,
        other@.evicted == ordinary@.evicted,
        engine_laws::valid(ordinary@),
        engine_laws::valid(other@),
{
    engine_laws::a_new_engine_is_empty(false);
    engine_laws::a_new_engine_is_valid(false);
    engine_laws::a_new_engine_is_valid(withdrawals);
}

/// An engine shows the account of a client exactly if there is one, and the account it shows is
/// that one. It says exactly of a frozen client that it is frozen.
pub proof fn an_engine_shows_what_it_holds(
    engine: &Engine,
    client: u16,
    account: Option<&Account>,
    frozen: bool,
)
    requires
        call_ensures(Engine::account, (engine, client), account),
        call_ensures(Engine::is_frozen, (engine, client), frozen),
    ensures
        account is Some <==> engine@.accounts.contains_key(client),
        account matches Some(account) ==> account@ == engine@.accounts[client],
        frozen <==> engine@.frozen.contains(client),
{
}

/// The list of accounts holds the account of every client that has one, in ascending order of
/// the clients, and no other.
pub proof fn a_call_of_accounts(engine: &Engine, accounts: Vec<&Account>)
    requires
        engine_laws::valid(engine@),
        call_ensures(Engine::accounts, (engine,), accounts),
    ensures
        forall|client: u16| #[trigger]
            engine@.accounts.contains_key(client) <==> exists|i: int|
                0 <= i < accounts@.len() && (#[trigger] accounts@[i])@.client == client,
        forall|i: int|
            0 <= i < accounts@.len() ==> (#[trigger] accounts@[i])@
                == engine@.accounts[accounts@[i]@.client],
        forall|i: int, j: int|
            0 <= i < j < accounts@.len() ==> (#[trigger] accounts@[i])@.client < (
            #[trigger] accounts@[j])@.client,
{
    let clients = engine@.clients();
    let states = engine::states_of(accounts@);
    engine::clients_are_listed_in_order(engine@.accounts.dom(), engine::CLIENTS as nat);
    assert(states.len() == accounts@.len());
    assert forall|i: int| 0 <= i < accounts@.len() implies (#[trigger] accounts@[i])@
        == engine@.accounts[accounts@[i]@.client] && accounts@[i]@.client == clients[i]
        && engine@.accounts.contains_key(clients[i]) by {
        assert(states[i] == accounts@[i]@);
        assert(clients.contains(clients[i]));
        assert(engine@.accounts.contains_key(clients[i]));
    }
    assert forall|client: u16| #[trigger]
        engine@.accounts.contains_key(client) implies exists|i: int|
        0 <= i < accounts@.len() && (#[trigger] accounts@[i])@.client == client by {
        assert(clients.contains(client));
        let i = choose|i: int| 0 <= i < clients.len() && clients[i] == client;
        assert(accounts@[i]@.client == client);
    }
}

/// Taking the rows of the evicted accounts gives each of them once, in their order, and changes
/// nothing else.
pub proof fn a_call_of_take_evicted(engine: &mut Engine, rows: Vec<AccountRow>)
    requires
        call_ensures(Engine::take_evicted, (engine,), rows),
    ensures
        rows@.len() == old(engine)@.evicted.len(),
        forall|i: int|
            0 <= i < rows@.len() ==> (#[trigger] rows@[i])@ == old(engine)@.evicted[i],
        final(engine)@.evicted.len() == 0,
        final(engine)@.accounts == old(engine)@.accounts,
        final(engine)@.frozen == old(engine)@.frozen,
        final(engine)@.disputable_withdrawals == old(engine)@.disputable_withdrawals,
{
    let listed = crate::account::rows_of(rows@);
    assert forall|i: int| 0 <= i < rows@.len() implies (#[trigger] rows@[i])@ == old(
        engine,
    )@.evicted[i] by {
        assert(listed[i] == rows@[i]@);
    }
}

/// Draining an engine gives the rows that wait, in their order, and then one row for each open
/// account, in ascending order of the clients, with the balances of the account and their sum.
/// Afterwards there is no account and no row left, and frozen clients stay frozen.
pub proof fn a_call_of_drain_rows(engine: &mut Engine, rows: Vec<AccountRow>)
    requires
        engine_laws::valid(old(engine)@),
        call_ensures(Engine::drain_rows, (engine,), rows),
    ensures
        ({
            let waiting = old(engine)@.evicted.len() as int;
            &&& waiting <= rows@.len()
            &&& forall|i: int|
                0 <= i < waiting ==> (#[trigger] rows@[i])@ == old(engine)@.evicted[i]
            &&& forall|client: u16| #[trigger]
                old(engine)@.accounts.contains_key(client) <==> exists|i: int|
                    waiting <= i < rows@.len() && (#[trigger] rows@[i]).client == client
            &&& forall|i: int, j: int|
                waiting <= i < j < rows@.len() ==> (#[trigger] rows@[i]).client < (
                #[trigger] rows@[j]).client
            &&& forall|i: int|
                waiting <= i < rows@.len() ==> {
                    let row = #[trigger] rows@[i];
                    let account = old(engine)@.accounts[row.client];
                    &&& row.available@ == account.available
                    &&& row.held@ == account.held
                    &&& row.total@.value() == account.available.value() + account.held.value()
                    &&& !row.locked
                }
        }),
        forall|client: u16| !final(engine)@.accounts.contains_key(client),
        final(engine)@.evicted.len() == 0,
        final(engine)@.frozen == old(engine)@.frozen,
        final(engine)@.disputable_withdrawals == old(engine)@.disputable_withdrawals,
{
    let listed = crate::account::rows_of(rows@);
    let owed = old(engine)@.reported();
    let waiting = old(engine)@.evicted.len() as int;
    engine_laws::the_rows_an_engine_owes(old(engine)@);
    assert(listed.len() == rows@.len());
    assert forall|i: int| 0 <= i < rows@.len() implies (#[trigger] rows@[i])@ == owed[i] by {
        assert(listed[i] == rows@[i]@);
    }
    assert forall|i: int| 0 <= i < waiting implies (#[trigger] rows@[i])@ == old(
        engine,
    )@.evicted[i] by {
        assert(owed.take(waiting)[i] == owed[i]);
    }
    assert forall|i: int, j: int| waiting <= i < j < rows@.len() implies (
    #[trigger] rows@[i]).client < (#[trigger] rows@[j]).client by {
        assert(owed[i].client < owed[j].client);
    }
    assert forall|client: u16| #[trigger]
        old(engine)@.accounts.contains_key(client) implies exists|i: int|
        waiting <= i < rows@.len() && (#[trigger] rows@[i]).client == client by {
        let i = choose|i: int|
            waiting <= i < owed.len() && (#[trigger] owed[i]).client == client;
        assert(rows@[i].client == client);
    }
    assert forall|client: u16|
        (exists|i: int|
            waiting <= i < rows@.len() && (#[trigger] rows@[i]).client == client) implies
        #[trigger] old(engine)@.accounts.contains_key(client) by {
        let i = choose|i: int|
            waiting <= i < rows@.len() && (#[trigger] rows@[i]).client == client;
        assert(owed[i].client == client);
    }
    assert forall|i: int| waiting <= i < rows@.len() implies {
        let row = #[trigger] rows@[i];
        let account = old(engine)@.accounts[row.client];
        &&& row.available@ == account.available
        &&& row.held@ == account.held
        &&& row.total@.value() == account.available.value() + account.held.value()
        &&& !row.locked
    } by {
        assert(owed[i] == rows@[i]@);
    }
}

/// What is to come of the text of an amount that is given: it must be a decimal number, must not
/// be below zero and must not have more than four decimal places. Then it is that number.
pub open spec fn amount_text_rule(raw: Seq<char>, outcome: Result<Number, Rejection>) -> bool {
    match decimal::parsed(raw) {
        None => outcome == Err::<Number, Rejection>(Rejection::MalformedAmount(raw)),
        Some(number) => if number.mantissa < 0 {
            outcome == Err::<Number, Rejection>(Rejection::NegativeAmount(raw))
        } else if number.scale > 4 {
            outcome == Err::<Number, Rejection>(Rejection::ExcessPrecision(raw))
        } else {
            outcome == Ok::<Number, Rejection>(number)
        },
    }
}

/// What parsing an amount comes to.
pub open spec fn amount_in(result: Result<Amount, RecordError>) -> Result<Number, Rejection> {
    match result {
        Ok(amount) => Ok(amount@),
        Err(error) => Err(error@),
    }
}

/// Parsing an amount comes to what it is to come to, and what it gives is an amount.
pub proof fn a_call_of_parse(raw: &str, result: Result<Amount, RecordError>)
    requires
        call_ensures(Amount::parse, (raw,), result),
    ensures
        amount_text_rule(raw@, amount_in(result)),
        result matches Ok(amount) ==> 0 <= amount@.mantissa && amount@.scale <= 4,
{
}

/// What is to come of the amount column of a deposit or a withdrawal, which must not be empty.
pub open spec fn amount_column_rule(
    column: Option<Seq<char>>,
    kind: Seq<char>,
    outcome: Result<Number, Rejection>,
) -> bool {
    match column {
        None => outcome == Err::<Number, Rejection>(Rejection::MissingAmount(kind)),
        Some(raw) => if raw.len() == 0 {
            outcome == Err::<Number, Rejection>(Rejection::MissingAmount(kind))
        } else {
            amount_text_rule(raw, outcome)
        },
    }
}

/// What is to come of a row: the type decides, whatever its capitals, and anything but the five
/// types is unknown. A deposit and a withdrawal need an amount. Nothing else looks at it.
pub open spec fn row_rule(
    kind: Seq<char>,
    client: u16,
    tx: u32,
    amount: Option<Seq<char>>,
    outcome: Result<Instruction, Rejection>,
) -> bool {
    let small = record::in_small(kind);
    if small == "deposit"@ {
        match outcome {
            Ok(instruction) => instruction matches Instruction::Deposit {
                client: its_client,
                tx: its_tx,
                amount: its_amount,
            } && its_client == client && its_tx == tx && amount_column_rule(
                amount,
                "deposit"@,
                Ok(its_amount),
            ),
            Err(rejection) => amount_column_rule(amount, "deposit"@, Err(rejection)),
        }
    } else if small == "withdrawal"@ {
        match outcome {
            Ok(instruction) => instruction matches Instruction::Withdrawal {
                client: its_client,
                tx: its_tx,
                amount: its_amount,
            } && its_client == client && its_tx == tx && amount_column_rule(
                amount,
                "withdrawal"@,
                Ok(its_amount),
            ),
            Err(rejection) => amount_column_rule(amount, "withdrawal"@, Err(rejection)),
        }
    } else if small == "dispute"@ {
        outcome == Ok::<Instruction, Rejection>(Instruction::Dispute { client, tx })
    } else if small == "resolve"@ {
        outcome == Ok::<Instruction, Rejection>(Instruction::Resolve { client, tx })
    } else if small == "chargeback"@ {
        outcome == Ok::<Instruction, Rejection>(Instruction::Chargeback { client, tx })
    } else {
        outcome == Err::<Instruction, Rejection>(Rejection::UnknownType(kind))
    }
}

/// The five types are written in small letters.
proof fn types_are_small()
    ensures
        record::in_small("deposit"@) == "deposit"@,
        record::in_small("withdrawal"@) == "withdrawal"@,
        record::in_small("dispute"@) == "dispute"@,
        record::in_small("resolve"@) == "resolve"@,
        record::in_small("chargeback"@) == "chargeback"@,
{
    reveal_strlit("deposit");
    reveal_strlit("withdrawal");
    reveal_strlit("dispute");
    reveal_strlit("resolve");
    reveal_strlit("chargeback");
    assert(record::in_small("deposit"@) =~= "deposit"@);
    assert(record::in_small("withdrawal"@) =~= "withdrawal"@);
    assert(record::in_small("dispute"@) =~= "dispute"@);
    assert(record::in_small("resolve"@) =~= "resolve"@);
    assert(record::in_small("chargeback"@) =~= "chargeback"@);
}

/// A row becomes what it is to become.
pub proof fn a_row_keeps_to_the_rule(
    kind: Seq<char>,
    client: u16,
    tx: u32,
    amount: Option<Seq<char>>,
)
    ensures
        row_rule(kind, client, tx, amount, record::interpreted(kind, client, tx, amount)),
{
    types_are_small();
}

/// What validating a row comes to.
pub open spec fn row_outcome(result: Result<Transaction, RecordError>) -> Result<
    Instruction,
    Rejection,
> {
    match result {
        Ok(transaction) => Ok(transaction@),
        Err(error) => Err(error@),
    }
}

/// Validating a row comes to what it is to come to, and what it gives can be applied.
pub proof fn a_call_of_from_raw(raw: &RawRecord<'_>, result: Result<Transaction, RecordError>)
    requires
        call_ensures(Transaction::from_raw, (raw,), result),
    ensures
        row_rule(
            raw.kind@,
            raw.client,
            raw.tx,
            match raw.amount {
                Some(text) => Some(text@),
                None => None,
            },
            row_outcome(result),
        ),
        result matches Ok(transaction) ==> account_laws::is_valid(transaction@),
{
    let amount = record::text_in(raw.amount);
    a_row_keeps_to_the_rule(raw.kind@, raw.client, raw.tx, amount);
    record::a_transaction_is_well_formed(raw.kind@, raw.client, raw.tx, amount);
}

/// A transaction shows its client and its ID.
pub proof fn a_transaction_shows_what_it_holds(transaction: &Transaction, client: u16, tx: u32)
    requires
        call_ensures(Transaction::client, (transaction,), client),
        call_ensures(Transaction::tx, (transaction,), tx),
    ensures
        match *transaction {
            Transaction::Deposit { client: c, tx: t, .. } => client == c && tx == t,
            Transaction::Withdrawal { client: c, tx: t, .. } => client == c && tx == t,
            Transaction::Dispute { client: c, tx: t } => client == c && tx == t,
            Transaction::Resolve { client: c, tx: t } => client == c && tx == t,
            Transaction::Chargeback { client: c, tx: t } => client == c && tx == t,
        },
{
}

/// Validating the value that the text of an amount denotes comes to what it is to come to,
/// whatever the value. An amount shows its value as it is, and as text it reads the same.
pub proof fn a_call_of_validate(
    raw: &str,
    value: Option<Decimal>,
    result: Result<Amount, RecordError>,
    amount: Amount,
    shown: Decimal,
    text: String,
)
    requires
        call_ensures(Amount::validate, (raw, value), result),
        call_ensures(Amount::value, (amount,), shown),
        call_ensures(Amount::to_string, (&amount,), text),
    ensures
        match value {
            None => amount_in(result) == Err::<Number, Rejection>(
                Rejection::MalformedAmount(raw@),
            ),
            Some(value) => if value@.mantissa < 0 {
                amount_in(result) == Err::<Number, Rejection>(Rejection::NegativeAmount(raw@))
            } else if value@.scale > 4 {
                amount_in(result) == Err::<Number, Rejection>(Rejection::ExcessPrecision(raw@))
            } else {
                amount_in(result) == Ok::<Number, Rejection>(value@)
            },
        },
        shown@ == amount@,
        decimal::parsed(text@) == Some(amount@),
{
    decimal::a_written_number_reads_back(amount@);
}

/// Decimals are equal exactly if their values are, and so are amounts.
pub proof fn a_call_of_equal(
    a: &Decimal,
    b: &Decimal,
    equal: bool,
    amount: &Amount,
    other: &Amount,
    same: bool,
)
    requires
        call_ensures(Decimal::eq, (a, b), equal),
        call_ensures(Amount::eq, (amount, other), same),
    ensures
        equal <==> a@.value() == b@.value(),
        same <==> amount@.value() == other@.value(),
{
}

/// Transactions are equal exactly if they are of one kind, of one client and ID, and of one
/// value if they have any.
pub proof fn a_call_of_same_transaction(
    transaction: &Transaction,
    other: &Transaction,
    equal: bool,
)
    requires
        call_ensures(Transaction::eq, (transaction, other), equal),
    ensures
        equal <==> match (*transaction, *other) {
            (
                Transaction::Deposit { client, tx, amount },
                Transaction::Deposit { client: client2, tx: tx2, amount: amount2 },
            ) => client == client2 && tx == tx2 && amount@.value() == amount2@.value(),
            (
                Transaction::Withdrawal { client, tx, amount },
                Transaction::Withdrawal { client: client2, tx: tx2, amount: amount2 },
            ) => client == client2 && tx == tx2 && amount@.value() == amount2@.value(),
            (
                Transaction::Dispute { client, tx },
                Transaction::Dispute { client: client2, tx: tx2 },
            ) => client == client2 && tx == tx2,
            (
                Transaction::Resolve { client, tx },
                Transaction::Resolve { client: client2, tx: tx2 },
            ) => client == client2 && tx == tx2,
            (
                Transaction::Chargeback { client, tx },
                Transaction::Chargeback { client: client2, tx: tx2 },
            ) => client == client2 && tx == tx2,
            _ => false,
        },
{
}

} // verus!
