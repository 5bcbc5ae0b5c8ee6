//! A single client's account: its balances, its disputable history, and every rule that
//! moves money between the two buckets.

use crate::amount;
use crate::amount::Amount;
use crate::decimal;
use crate::decimal::{Decimal, Number};
use crate::error::{RecordError, Rejection};
use std::collections::HashMap;
use vstd::prelude::*;

verus! {

broadcast use vstd::std_specs::hash::group_hash_axioms;

/// What a retained transaction is, and whether it is currently under dispute.
///
/// The withdrawal states only come up in an account whose withdrawals can be disputed; in
/// any other a withdrawal is never retained, so it cannot be referenced at all.
#[derive(Clone, Copy, Debug, PartialEq, Eq, Structural)]
pub enum TxState {
    Deposit,
    DisputedDeposit,
    Withdrawal,
    DisputedWithdrawal,
}

#[derive(Clone, Copy, Debug)]
struct TxRecord {
    amount: Amount,
    state: TxState,
}

/// The disputable history of an account.
///
/// A locked account can never move again, so locking replaces the map with nothing and
/// hands its memory back rather than carrying a dead index for the rest of the run.
#[derive(Debug)]
enum History {
    Open(HashMap<u32, TxRecord>),
    Locked,
}

/// Two balances whose sum can be held to the last digit.
#[derive(Clone, Copy, Debug)]
struct Balances {
    available: Decimal,
    held: Decimal,
}

/// `a` and `b` may stand side by side as the balances of an account.
spec fn balanced(a: Number, b: Number) -> bool {
    a.scale <= amount::SCALE && b.scale <= amount::SCALE && decimal::lossless_sum(a, b) is Some
}

impl Balances {
    #[verifier::type_invariant]
    spec fn valid(self) -> bool {
        balanced(self.available@, self.held@)
    }
}

/// A client account.
///
/// The balances are private and `total` is derived rather than stored, so
/// `total = available + held` is not a rule anyone has to remember: it is the only shape
/// the type can take. Every mutation goes through `set_balances`, which is also the single
/// place that rejects an update it could not represent.
#[derive(Debug)]
pub struct Account {
    client: u16,
    disputable_withdrawals: bool,
    balances: Balances,
    history: History,
}

/// A transaction that can still be referred to.
pub struct Retained {
    pub amount: Number,
    pub state: TxState,
}

/// What an account holds. An account without a history is locked.
#[verifier::ext_equal]
pub struct AccountState {
    pub client: u16,
    pub disputable_withdrawals: bool,
    pub available: Number,
    pub held: Number,
    pub history: Option<Map<u32, Retained>>,
}

/// The final state of an account, as it is reported.
pub struct Row {
    pub client: u16,
    pub available: Number,
    pub held: Number,
    pub total: Number,
    pub locked: bool,
}

impl AccountState {
    /// An account with no funds and no history.
    pub open spec fn opened(client: u16, disputable_withdrawals: bool) -> AccountState {
        AccountState {
            client,
            disputable_withdrawals,
            available: decimal::zero(),
            held: decimal::zero(),
            history: Some(Map::empty()),
        }
    }

    /// What every account keeps to: both balances have at most [`amount::SCALE`] decimal places
    /// and add up to a total that can be held to the last digit, and every amount in the history
    /// is a valid one.
    pub open spec fn valid(self) -> bool {
        &&& self.available.fits() && self.available.scale <= amount::SCALE
        &&& self.held.fits() && self.held.scale <= amount::SCALE
        &&& decimal::lossless_sum(self.available, self.held) is Some
        &&& self.history matches Some(txs) ==> forall|tx: u32| #[trigger]
            txs.contains_key(tx) ==> amount::is_amount(txs[tx].amount)
    }

    /// Funds available plus funds held.
    pub open spec fn total(self) -> Number {
        decimal::lossless_sum(self.available, self.held)->0
    }

    /// The row that reports the account.
    pub open spec fn row(self, locked: bool) -> Row {
        Row {
            client: self.client,
            available: self.available,
            held: self.held,
            total: self.total(),
            locked,
        }
    }

    /// The account with other balances, unless one of them or their sum cannot be held to the
    /// last digit.
    pub open spec fn rebalanced(self, available: Option<Number>, held: Option<Number>) -> Result<
        AccountState,
        Rejection,
    > {
        match (available, held) {
            (Some(available), Some(held)) => match decimal::lossless_sum(available, held) {
                Some(_) => Ok(AccountState { available, held, ..self }),
                None => Err(Rejection::Overflow(self.client)),
            },
            _ => Err(Rejection::Overflow(self.client)),
        }
    }

    /// The transaction that `tx` refers to.
    pub open spec fn retained(self, tx: u32) -> Result<Retained, Rejection> {
        match self.history {
            None => Err(Rejection::AccountLocked(self.client)),
            Some(txs) => if txs.contains_key(tx) {
                Ok(txs[tx])
            } else {
                Err(Rejection::UnknownTx { client: self.client, tx })
            },
        }
    }

    /// The account with `tx` retained as `record`.
    pub open spec fn retaining(self, tx: u32, record: Retained) -> AccountState {
        AccountState { history: Some(self.history->0.insert(tx, record)), ..self }
    }

    /// The account once nothing can refer to `tx` any more.
    pub open spec fn forgetting(self, tx: u32) -> AccountState {
        AccountState { history: Some(self.history->0.remove(tx)), ..self }
    }

    /// Credits the account and retains the transaction for later dispute.
    pub open spec fn deposit(self, tx: u32, amount: Number) -> Result<AccountState, Rejection> {
        match self.history {
            None => Err(Rejection::AccountLocked(self.client)),
            Some(txs) => if txs.contains_key(tx) {
                Err(Rejection::DuplicateTx { client: self.client, tx })
            } else {
                match self.rebalanced(
                    decimal::lossless_sum(self.available, amount),
                    Some(self.held),
                ) {
                    Ok(next) => Ok(
                        next.retaining(tx, Retained { amount, state: TxState::Deposit }),
                    ),
                    Err(error) => Err(error),
                }
            },
        }
    }

    /// Debits the account, if it can cover the amount. The ID of a transaction that is still
    /// retained cannot be used for another.
    pub open spec fn withdraw(self, tx: u32, amount: Number) -> Result<AccountState, Rejection> {
        match self.history {
            None => Err(Rejection::AccountLocked(self.client)),
            Some(txs) => if txs.contains_key(tx) {
                Err(Rejection::DuplicateTx { client: self.client, tx })
            } else if self.available.value() < amount.value() {
                Err(
                    Rejection::InsufficientFunds {
                        client: self.client,
                        available: self.available.text(),
                        requested: amount.text(),
                    },
                )
            } else {
                match self.rebalanced(
                    decimal::lossless_difference(self.available, amount),
                    Some(self.held),
                ) {
                    Ok(next) => Ok(
                        if self.disputable_withdrawals {
                            next.retaining(tx, Retained { amount, state: TxState::Withdrawal })
                        } else {
                            next
                        },
                    ),
                    Err(error) => Err(error),
                }
            },
        }
    }

    /// Holds the funds behind a transaction while a claim is investigated.
    pub open spec fn dispute(self, tx: u32) -> Result<AccountState, Rejection> {
        match self.retained(tx) {
            Err(error) => Err(error),
            Ok(record) => {
                let held = decimal::lossless_sum(self.held, record.amount);
                match record.state {
                    TxState::Deposit => match self.rebalanced(
                        decimal::lossless_difference(self.available, record.amount),
                        held,
                    ) {
                        Ok(next) => Ok(
                            next.retaining(
                                tx,
                                Retained { state: TxState::DisputedDeposit, ..record },
                            ),
                        ),
                        Err(error) => Err(error),
                    },
                    TxState::Withdrawal => match self.rebalanced(Some(self.available), held) {
                        Ok(next) => Ok(
                            next.retaining(
                                tx,
                                Retained { state: TxState::DisputedWithdrawal, ..record },
                            ),
                        ),
                        Err(error) => Err(error),
                    },
                    _ => Err(Rejection::AlreadyDisputed { client: self.client, tx }),
                }
            },
        }
    }

    /// Ends a dispute without reversing anything.
    pub open spec fn resolve(self, tx: u32) -> Result<AccountState, Rejection> {
        match self.retained(tx) {
            Err(error) => Err(error),
            Ok(record) => {
                let available = match record.state {
                    TxState::DisputedDeposit => decimal::lossless_sum(
                        self.available,
                        record.amount,
                    ),
                    _ => Some(self.available),
                };
                if record.state == TxState::Deposit || record.state == TxState::Withdrawal {
                    Err(Rejection::NotDisputed { client: self.client, tx })
                } else {
                    match self.rebalanced(
                        available,
                        decimal::lossless_difference(self.held, record.amount),
                    ) {
                        Ok(next) => Ok(next.forgetting(tx)),
                        Err(error) => Err(error),
                    }
                }
            },
        }
    }

    /// Reverses a transaction and freezes the account.
    pub open spec fn chargeback(self, tx: u32) -> Result<AccountState, Rejection> {
        match self.retained(tx) {
            Err(error) => Err(error),
            Ok(record) => {
                let available = match record.state {
                    TxState::DisputedWithdrawal => decimal::lossless_sum(
                        self.available,
                        record.amount,
                    ),
                    _ => Some(self.available),
                };
                if record.state == TxState::Deposit || record.state == TxState::Withdrawal {
                    Err(Rejection::NotDisputed { client: self.client, tx })
                } else {
                    match self.rebalanced(
                        available,
                        decimal::lossless_difference(self.held, record.amount),
                    ) {
                        Ok(next) => Ok(AccountState { history: None, ..next }),
                        Err(error) => Err(error),
                    }
                }
            },
        }
    }
}

impl TxRecord {
    spec fn retained(self) -> Retained {
        Retained { amount: self.amount@, state: self.state }
    }
}

impl View for Account {
    type V = AccountState;

    closed spec fn view(&self) -> AccountState {
        AccountState {
            client: self.client,
            disputable_withdrawals: self.disputable_withdrawals,
            available: self.balances.available@,
            held: self.balances.held@,
            history: match self.history {
                History::Open(txs) => Some(txs@.map_values(|record: TxRecord| record.retained())),
                History::Locked => None,
            },
        }
    }
}

/// `result` and the account left behind are what `expected` says: on an error, the account is
/// as it was.
pub open spec fn follows(
    before: AccountState,
    result: Result<(), RecordError>,
    after: AccountState,
    expected: Result<AccountState, Rejection>,
) -> bool {
    match expected {
        Ok(next) => result is Ok && after == next,
        Err(rejection) => result matches Err(error) && error@ == rejection && after == before,
    }
}

/// How many ten-thousandths a balance is.
fn units(value: Decimal) -> (units: i128)
    requires
        value@.scale <= amount::SCALE,
    ensures
        units == value@.at_scale(amount::SCALE as nat),
        decimal::magnitude(units as int) <= 10_000 * decimal::MAX_MANTISSA,
{
    let mantissa: i128 = value.mantissa();
    let scale: u32 = value.scale();
    proof {
        reveal_with_fuel(decimal::ten_to, 5);
        let unit = decimal::ten_to((amount::SCALE - scale) as nat);
        assert(unit == 10_000 || unit == 1_000 || unit == 100 || unit == 10 || unit == 1);
        assert(mantissa * unit == value@.at_scale(amount::SCALE as nat));
    }
    if scale == 0 {
        mantissa * 10_000
    } else if scale == 1 {
        mantissa * 1_000
    } else if scale == 2 {
        mantissa * 100
    } else if scale == 3 {
        mantissa * 10
    } else {
        mantissa
    }
}

/// Two numbers are worth the same exactly if they are in ten-thousandths.
proof fn units_tell_values_apart(a: Number, b: Number)
    requires
        a.scale <= amount::SCALE,
        b.scale <= amount::SCALE,
    ensures
        a.value() == b.value() <==> a.at_scale(amount::SCALE as nat) == b.at_scale(
            amount::SCALE as nat,
        ),
{
    let near = amount::SCALE as nat;
    let far = decimal::MAX_SCALE as nat;
    let unit = decimal::ten_to((far - near) as nat);
    decimal::rescaling_in_two_goes(a, near, far);
    decimal::rescaling_in_two_goes(b, near, far);
    decimal::powers_of_ten_multiply((far - near) as nat, 0);
    let x = a.at_scale(near);
    let y = b.at_scale(near);
    assert(x * unit == y * unit <==> x == y) by (nonlinear_arith)
        requires
            unit > 0,
    ;
}

/// The sum of two balances, or nothing where it cannot be held to the last digit.
fn exact_add(a: Decimal, b: Decimal) -> (total: Option<Decimal>)
    requires
        a@.scale <= amount::SCALE,
        b@.scale <= amount::SCALE,
    ensures
        decimal::number_in(total) == decimal::lossless_sum(a@, b@),
        total matches Some(total) ==> total@.scale <= amount::SCALE,
{
    proof {
        decimal::exact_sums_add_up(a@, b@, amount::SCALE as nat);
        decimal::rounding_is_the_only_loss(decimal::exact_sum(a@, b@));
    }
    match a.checked_add(b) {
        Some(total) => {
            proof {
                units_tell_values_apart(total@, decimal::exact_sum(a@, b@));
            }
            // A sum beyond 96 bits comes back rounded, which would make money up or lose it.
            if units(total) == units(a) + units(b) {
                Some(total)
            } else {
                None
            }
        },
        None => None,
    }
}

/// The difference of two balances, or nothing where it cannot be held to the last digit.
fn exact_sub(a: Decimal, b: Decimal) -> (rest: Option<Decimal>)
    requires
        a@.scale <= amount::SCALE,
        b@.scale <= amount::SCALE,
    ensures
        decimal::number_in(rest) == decimal::lossless_difference(a@, b@),
        rest matches Some(rest) ==> rest@.scale <= amount::SCALE,
{
    proof {
        decimal::exact_differences_add_up(a@, b@, amount::SCALE as nat);
        decimal::rounding_is_the_only_loss(decimal::exact_difference(a@, b@));
    }
    match a.checked_sub(b) {
        Some(rest) => {
            proof {
                units_tell_values_apart(rest@, decimal::exact_difference(a@, b@));
            }
            if units(rest) == units(a) - units(b) {
                Some(rest)
            } else {
                None
            }
        },
        None => None,
    }
}

impl Account {
    /// An account with no funds and no history.
    pub fn new(client: u16) -> (account: Account)
        ensures
            account@ == AccountState::opened(client, false),
    {
        Account::with_disputes(client, false)
    }

    /// An account with no funds and no history. If `withdrawals` holds, a withdrawal can be
    /// disputed as a deposit can.
    pub fn with_disputes(client: u16, withdrawals: bool) -> (account: Account)
        ensures
            account@ == AccountState::opened(client, withdrawals),
    {
        let account = Account {
            client,
            disputable_withdrawals: withdrawals,
            balances: Balances { available: Decimal::zero(), held: Decimal::zero() },
            history: History::Open(HashMap::new()),
        };
        assert(account@.history->0 =~= Map::<u32, Retained>::empty());
        account
    }

    pub fn client(&self) -> (client: u16)
        ensures
            client == self@.client,
    {
        self.client
    }

    pub fn available(&self) -> (available: Decimal)
        ensures
            available@ == self@.available,
            available@.scale <= amount::SCALE,
    {
        proof {
            use_type_invariant(&self.balances);
        }
        self.balances.available
    }

    pub fn held(&self) -> (held: Decimal)
        ensures
            held@ == self@.held,
            held@.scale <= amount::SCALE,
    {
        proof {
            use_type_invariant(&self.balances);
        }
        self.balances.held
    }

    /// Funds available plus funds held.
    pub fn total(&self) -> (total: Decimal)
        ensures
            total@ == self@.total(),
            decimal::lossless_sum(self@.available, self@.held) == Some(total@),
            total@.scale <= amount::SCALE,
    {
        proof {
            use_type_invariant(&self.balances);
            decimal::exact_sums_add_up(self@.available, self@.held, amount::SCALE as nat);
            decimal::rounding_is_the_only_loss(decimal::exact_sum(self@.available, self@.held));
        }
        // Saturating rather than checked: the balances are a pair whose sum can be held.
        self.balances.available.saturating_add(self.balances.held)
    }

    pub fn is_locked(&self) -> (locked: bool)
        ensures
            locked == (self@.history is None),
    {
        match self.history {
            History::Open(_) => false,
            History::Locked => true,
        }
    }

    /// The disputable history, or an error if the account is frozen.
    fn open_txs(&self) -> (result: Result<&HashMap<u32, TxRecord>, RecordError>)
        ensures
            match result {
                Ok(txs) => self.history == History::Open(*txs),
                Err(error) => self@.history is None && error@ == Rejection::AccountLocked(
                    self.client,
                ),
            },
    {
        match &self.history {
            History::Open(txs) => Ok(txs),
            History::Locked => Err(RecordError::AccountLocked(self.client)),
        }
    }

    /// The transaction that `tx` refers to.
    fn record(&self, tx: u32) -> (result: Result<TxRecord, RecordError>)
        ensures
            match result {
                Ok(record) => self@.retained(tx) == Ok::<Retained, Rejection>(record.retained()),
                Err(error) => self@.retained(tx) == Err::<Retained, Rejection>(error@),
            },
    {
        match self.open_txs() {
            Ok(txs) => match txs.get(&tx) {
                Some(record) => Ok(*record),
                None => Err(RecordError::UnknownTx { client: self.client, tx }),
            },
            Err(error) => Err(error),
        }
    }

    /// The only way to change a balance.
    fn set_balances(&mut self, available: Decimal, held: Decimal) -> (result: Result<
        (),
        RecordError,
    >)
        requires
            available@.scale <= amount::SCALE,
            held@.scale <= amount::SCALE,
        ensures
            follows(
                old(self)@,
                result,
                final(self)@,
                old(self)@.rebalanced(Some(available@), Some(held@)),
            ),
            final(self).history == old(self).history,
    {
        match exact_add(available, held) {
            Some(_) => {
                self.balances = Balances { available, held };
                Ok(())
            },
            None => Err(RecordError::Overflow(self.client)),
        }
    }

    fn add(&self, a: Decimal, b: Decimal) -> (result: Result<Decimal, RecordError>)
        requires
            a@.scale <= amount::SCALE,
            b@.scale <= amount::SCALE,
        ensures
            match result {
                Ok(total) => decimal::lossless_sum(a@, b@) == Some(total@) && total@.scale
                    <= amount::SCALE,
                Err(error) => decimal::lossless_sum(a@, b@) is None && error@
                    == Rejection::Overflow(self@.client),
            },
    {
        match exact_add(a, b) {
            Some(total) => Ok(total),
            None => Err(RecordError::Overflow(self.client)),
        }
    }

    fn sub(&self, a: Decimal, b: Decimal) -> (result: Result<Decimal, RecordError>)
        requires
            a@.scale <= amount::SCALE,
            b@.scale <= amount::SCALE,
        ensures
            match result {
                Ok(rest) => decimal::lossless_difference(a@, b@) == Some(rest@) && rest@.scale
                    <= amount::SCALE,
                Err(error) => decimal::lossless_difference(a@, b@) is None && error@
                    == Rejection::Overflow(self@.client),
            },
    {
        match exact_sub(a, b) {
            Some(rest) => Ok(rest),
            None => Err(RecordError::Overflow(self.client)),
        }
    }

    /// Retains `tx` as `record`, in place of what it was before.
    fn retain(&mut self, tx: u32, amount: Amount, state: TxState)
        requires
            old(self)@.history is Some,
        ensures
            final(self)@ == old(self)@.retaining(tx, Retained { amount: amount@, state }),
    {
        match &mut self.history {
            History::Open(txs) => {
                txs.insert(tx, TxRecord { amount, state });
            },
            History::Locked => {},
        }
        assert(self@.history->0 =~= old(self)@.history->0.insert(
            tx,
            Retained { amount: amount@, state },
        ));
    }

    /// Forgets `tx`.
    fn forget(&mut self, tx: u32)
        requires
            old(self)@.history is Some,
        ensures
            final(self)@ == old(self)@.forgetting(tx),
    {
        match &mut self.history {
            History::Open(txs) => {
                txs.remove(&tx);
            },
            History::Locked => {},
        }
        assert(self@.history->0 =~= old(self)@.history->0.remove(tx));
    }

    /// Credits the account and retains the transaction for later dispute.
    pub fn deposit(&mut self, tx: u32, amount: Amount) -> (result: Result<(), RecordError>)
        ensures
            follows(old(self)@, result, final(self)@, old(self)@.deposit(tx, amount@)),
    {
        proof {
            use_type_invariant(&self.balances);
        }
        match self.open_txs() {
            Ok(txs) => {
                if txs.contains_key(&tx) {
                    return Err(RecordError::DuplicateTx { client: self.client, tx });
                }
            },
            Err(error) => return Err(error),
        }
        let available = match self.add(self.balances.available, amount.value()) {
            Ok(available) => available,
            Err(error) => return Err(error),
        };
        match self.set_balances(available, self.balances.held) {
            Ok(()) => {},
            Err(error) => return Err(error),
        }
        self.retain(tx, amount, TxState::Deposit);
        Ok(())
    }

    /// Debits the account, if it can cover the amount.
    pub fn withdraw(&mut self, tx: u32, amount: Amount) -> (result: Result<(), RecordError>)
        ensures
            follows(old(self)@, result, final(self)@, old(self)@.withdraw(tx, amount@)),
    {
        proof {
            use_type_invariant(&self.balances);
        }
        match self.open_txs() {
            Ok(txs) => {
                if txs.contains_key(&tx) {
                    return Err(RecordError::DuplicateTx { client: self.client, tx });
                }
            },
            Err(error) => return Err(error),
        }
        if self.balances.available.less_than(amount.value()) {
            return Err(
                RecordError::InsufficientFunds {
                    client: self.client,
                    available: self.balances.available.to_string(),
                    requested: amount.to_string(),
                },
            );
        }
        let available = match self.sub(self.balances.available, amount.value()) {
            Ok(available) => available,
            Err(error) => return Err(error),
        };
        match self.set_balances(available, self.balances.held) {
            Ok(()) => {},
            Err(error) => return Err(error),
        }
        if self.disputable_withdrawals {
            self.retain(tx, amount, TxState::Withdrawal);
        }
        Ok(())
    }

    /// Holds the funds behind a transaction while a claim is investigated.
    ///
    /// Disputing a deposit moves funds out of `available` and into `held`. Disputing a
    /// withdrawal instead adds a provisional credit: the institution fronts the amount
    /// into `held`, so the total rises while the claim is open.
    pub fn dispute(&mut self, tx: u32) -> (result: Result<(), RecordError>)
        ensures
            follows(old(self)@, result, final(self)@, old(self)@.dispute(tx)),
    {
        proof {
            use_type_invariant(&self.balances);
        }
        let record = match self.record(tx) {
            Ok(record) => record,
            Err(error) => return Err(error),
        };
        let amount = record.amount.value();
        let (available, state) = match record.state {
            TxState::Deposit => match self.sub(self.balances.available, amount) {
                Ok(available) => (available, TxState::DisputedDeposit),
                Err(error) => return Err(error),
            },
            TxState::Withdrawal => (self.balances.available, TxState::DisputedWithdrawal),
            _ => return Err(RecordError::AlreadyDisputed { client: self.client, tx }),
        };
        let held = match self.add(self.balances.held, amount) {
            Ok(held) => held,
            Err(error) => return Err(error),
        };
        match self.set_balances(available, held) {
            Ok(()) => {},
            Err(error) => return Err(error),
        }
        self.retain(tx, record.amount, state);
        Ok(())
    }

    /// Ends a dispute without reversing anything.
    ///
    /// For a deposit the held funds go back to `available`. For a withdrawal the claim
    /// was denied, so the provisional credit is withdrawn again and the money stays gone.
    pub fn resolve(&mut self, tx: u32) -> (result: Result<(), RecordError>)
        ensures
            follows(old(self)@, result, final(self)@, old(self)@.resolve(tx)),
    {
        proof {
            use_type_invariant(&self.balances);
        }
        let record = match self.record(tx) {
            Ok(record) => record,
            Err(error) => return Err(error),
        };
        let amount = record.amount.value();
        let available = match record.state {
            TxState::DisputedDeposit => match self.add(self.balances.available, amount) {
                Ok(available) => available,
                Err(error) => return Err(error),
            },
            TxState::DisputedWithdrawal => self.balances.available,
            _ => return Err(RecordError::NotDisputed { client: self.client, tx }),
        };
        let held = match self.sub(self.balances.held, amount) {
            Ok(held) => held,
            Err(error) => return Err(error),
        };
        match self.set_balances(available, held) {
            Ok(()) => {},
            Err(error) => return Err(error),
        }
        // Resolved is terminal, so the record is dropped rather than kept forever.
        self.forget(tx);
        Ok(())
    }

    /// Reverses a transaction and freezes the account.
    ///
    /// Reversing a deposit takes the held funds away for good. Reversing a withdrawal
    /// releases the provisional credit to the client instead, leaving the total unchanged.
    pub fn chargeback(&mut self, tx: u32) -> (result: Result<(), RecordError>)
        ensures
            follows(old(self)@, result, final(self)@, old(self)@.chargeback(tx)),
    {
        proof {
            use_type_invariant(&self.balances);
        }
        let record = match self.record(tx) {
            Ok(record) => record,
            Err(error) => return Err(error),
        };
        let amount = record.amount.value();
        let available = match record.state {
            TxState::DisputedDeposit => self.balances.available,
            TxState::DisputedWithdrawal => match self.add(self.balances.available, amount) {
                Ok(available) => available,
                Err(error) => return Err(error),
            },
            _ => return Err(RecordError::NotDisputed { client: self.client, tx }),
        };
        let held = match self.sub(self.balances.held, amount) {
            Ok(held) => held,
            Err(error) => return Err(error),
        };
        match self.set_balances(available, held) {
            Ok(()) => {},
            Err(error) => return Err(error),
        }
        // Nothing can move on this account again, so the history is released.
        self.history = History::Locked;
        Ok(())
    }

    /// The row that reports the account.
    pub fn row(&self, locked: bool) -> (row: AccountRow)
        ensures
            row@ == self@.row(locked),
            decimal::lossless_sum(row.available@, row.held@) == Some(row.total@),
            row.available@.scale <= amount::SCALE,
            row.held@.scale <= amount::SCALE,
            row.total@.scale <= amount::SCALE,
    {
        proof {
            use_type_invariant(&self.balances);
        }
        AccountRow {
            client: self.client,
            available: self.balances.available,
            held: self.balances.held,
            total: self.total(),
            locked,
        }
    }
}

/// The final state of an account, as it is reported.
#[derive(Clone, Copy, Debug)]
pub struct AccountRow {
    pub client: u16,
    pub available: Decimal,
    pub held: Decimal,
    pub total: Decimal,
    pub locked: bool,
}

impl View for AccountRow {
    type V = Row;

    open spec fn view(&self) -> Row {
        Row {
            client: self.client,
            available: self.available@,
            held: self.held@,
            total: self.total@,
            locked: self.locked,
        }
    }
}

/// What a list of rows reports.
pub open spec fn rows_of(rows: Seq<AccountRow>) -> Seq<Row> {
    rows.map_values(|row: AccountRow| row@)
}

} // verus!
