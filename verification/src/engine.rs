//! Routes transactions to the account they belong to.

use crate::account;
use crate::account::{Account, AccountRow, AccountState, Row};
use crate::error::{RecordError, Rejection};
use crate::record::{Instruction, Transaction};
use std::collections::hash_map::Entry;
use std::collections::{HashMap, HashSet};
use vstd::prelude::*;

verus! {

broadcast use vstd::std_specs::hash::group_hash_axioms;

/// Every client account seen so far.
///
/// All state lives in this value: no globals, no statics, nothing shared. Two engines can
/// run side by side on separate inputs, which is what lets each shard have its own and never
/// synchronise with another.
#[derive(Debug)]
pub struct Engine {
    disputable_withdrawals: bool,
    clients: HashMap<u16, Account>,
    /// Clients frozen by a chargeback. Their accounts are gone; only the ID remains, so
    /// that every later record naming them can still be refused.
    frozen: HashSet<u16>,
    /// Rows of accounts already evicted, waiting to be taken by the caller.
    evicted: Vec<AccountRow>,
}

/// What an engine holds.
#[verifier::ext_equal]
pub struct EngineState {
    pub disputable_withdrawals: bool,
    pub accounts: Map<u16, AccountState>,
    pub frozen: Set<u16>,
    pub evicted: Seq<Row>,
}

impl EngineState {
    /// An engine without clients.
    pub open spec fn empty(disputable_withdrawals: bool) -> EngineState {
        EngineState {
            disputable_withdrawals,
            accounts: Map::empty(),
            frozen: Set::empty(),
            evicted: Seq::empty(),
        }
    }

    /// The account of a client, which is opened for a client not seen before.
    pub open spec fn opened(self, client: u16) -> AccountState {
        if self.accounts.contains_key(client) {
            self.accounts[client]
        } else {
            AccountState::opened(client, self.disputable_withdrawals)
        }
    }

    /// The engine with the account of a client replaced.
    pub open spec fn holding(self, client: u16, account: AccountState) -> EngineState {
        EngineState { accounts: self.accounts.insert(client, account), ..self }
    }

    /// The engine once a client is frozen, `account` being what the account came to.
    pub open spec fn freezing(self, client: u16, account: AccountState) -> EngineState {
        EngineState {
            accounts: self.accounts.remove(client),
            frozen: self.frozen.insert(client),
            evicted: self.evicted.push(account.row(true)),
            ..self
        }
    }

    /// A deposit or withdrawal: whatever comes of it, the client has an account from then on.
    pub open spec fn moved(self, client: u16, result: Result<AccountState, Rejection>) -> (
        EngineState,
        Result<(), Rejection>,
    ) {
        match result {
            Ok(next) => (self.holding(client, next), Ok(())),
            Err(error) => (self.holding(client, self.opened(client)), Err(error)),
        }
    }

    /// A step of a dispute: nothing changes unless it succeeds.
    pub open spec fn referred(self, client: u16, result: Result<AccountState, Rejection>) -> (
        EngineState,
        Result<(), Rejection>,
    ) {
        match result {
            Ok(next) => (self.holding(client, next), Ok(())),
            Err(error) => (self, Err(error)),
        }
    }

    /// Applies one instruction.
    pub open spec fn apply(self, instruction: Instruction) -> (
        EngineState,
        Result<(), Rejection>,
    ) {
        if self.frozen.contains(instruction.client()) {
            (self, Err(Rejection::AccountLocked(instruction.client())))
        } else {
            match instruction {
                Instruction::Deposit { client, tx, amount } => self.moved(
                    client,
                    self.opened(client).deposit(tx, amount),
                ),
                Instruction::Withdrawal { client, tx, amount } => self.moved(
                    client,
                    self.opened(client).withdraw(tx, amount),
                ),
                Instruction::Dispute { client, tx } => if self.accounts.contains_key(client) {
                    self.referred(client, self.accounts[client].dispute(tx))
                } else {
                    (self, Err(Rejection::UnknownTx { client, tx }))
                },
                Instruction::Resolve { client, tx } => if self.accounts.contains_key(client) {
                    self.referred(client, self.accounts[client].resolve(tx))
                } else {
                    (self, Err(Rejection::UnknownTx { client, tx }))
                },
                Instruction::Chargeback { client, tx } => if self.accounts.contains_key(client) {
                    match self.accounts[client].chargeback(tx) {
                        Ok(next) => (self.freezing(client, next), Ok(())),
                        Err(error) => (self, Err(error)),
                    }
                } else {
                    (self, Err(Rejection::UnknownTx { client, tx }))
                },
            }
        }
    }
}

/// How many client IDs there are.
pub const CLIENTS: u32 = 0x1_0000;

/// Those of `clients` that lie below `limit`, in ascending order.
pub open spec fn ascending(clients: Set<u16>, limit: nat) -> Seq<u16>
    decreases limit,
{
    if limit == 0 {
        Seq::empty()
    } else if clients.contains((limit - 1) as u16) {
        ascending(clients, (limit - 1) as nat).push((limit - 1) as u16)
    } else {
        ascending(clients, (limit - 1) as nat)
    }
}

impl EngineState {
    /// The clients with an open account, in ascending order.
    pub open spec fn clients(self) -> Seq<u16> {
        ascending(self.accounts.dom(), CLIENTS as nat)
    }

    /// The rows of the accounts that are still open, in ascending order of their clients.
    pub open spec fn open_rows(self) -> Seq<Row> {
        rows_for(self.accounts, self.clients())
    }

    /// Every row that the engine owes: those evicted, then those of the accounts still open.
    pub open spec fn reported(self) -> Seq<Row> {
        self.evicted + self.open_rows()
    }
}

/// The rows of open accounts, for `clients` in turn.
pub open spec fn rows_for(accounts: Map<u16, AccountState>, clients: Seq<u16>) -> Seq<Row> {
    clients.map_values(|client: u16| accounts[client].row(false))
}

/// The list of clients below a bound holds exactly those, each once and in ascending order.
pub proof fn clients_are_listed_in_order(clients: Set<u16>, limit: nat)
    requires
        limit <= CLIENTS,
    ensures
        forall|client: u16| #[trigger]
            ascending(clients, limit).contains(client) <==> clients.contains(client) && client
                < limit,
        forall|i: int, j: int|
            0 <= i < j < ascending(clients, limit).len() ==> (#[trigger] ascending(
                clients,
                limit,
            )[i]) < (#[trigger] ascending(clients, limit)[j]),
    decreases limit,
{
    if limit > 0 {
        let last = (limit - 1) as u16;
        let before = ascending(clients, (limit - 1) as nat);
        let listed = ascending(clients, limit);
        clients_are_listed_in_order(clients, (limit - 1) as nat);
        assert forall|client: u16|
            clients.contains(client) && client < limit implies #[trigger] listed.contains(
            client,
        ) by {
            if client == last {
                assert(listed[listed.len() - 1] == client);
            } else {
                assert(before.contains(client));
                let i = choose|i: int| 0 <= i < before.len() && before[i] == client;
                assert(listed[i] == client);
            }
        }
        assert forall|client: u16| #[trigger] listed.contains(client) implies clients.contains(
            client,
        ) && client < limit by {
            let i = choose|i: int| 0 <= i < listed.len() && listed[i] == client;
            if i < before.len() {
                assert(before[i] == client);
                assert(before.contains(client));
            }
        }
        assert forall|i: int, j: int| 0 <= i < j < listed.len() implies (#[trigger] listed[i]) < (
        #[trigger] listed[j]) by {
            assert(before[i] == listed[i]);
            assert(before.contains(before[i]));
            if j < before.len() {
                assert(before[j] == listed[j]);
            }
        }
    }
}

/// A bound beyond the largest of `clients` lists all of them.
proof fn nothing_further(clients: Set<u16>, limit: nat, further: nat)
    requires
        forall|client: u16| clients.contains(client) ==> client < limit,
        limit <= further <= CLIENTS,
    ensures
        ascending(clients, further) == ascending(clients, limit),
    decreases further,
{
    if limit < further {
        nothing_further(clients, limit, (further - 1) as nat);
    }
}

impl View for Engine {
    type V = EngineState;

    closed spec fn view(&self) -> EngineState {
        EngineState {
            disputable_withdrawals: self.disputable_withdrawals,
            accounts: self.clients@.map_values(|account: Account| account@),
            frozen: self.frozen@,
            evicted: self.evicted@.map_values(|row: AccountRow| row@),
        }
    }
}

/// The states of a list of accounts.
pub open spec fn states_of(accounts: Seq<&Account>) -> Seq<AccountState> {
    accounts.map_values(|account: &Account| account@)
}

/// The states of the accounts, for `clients` in turn.
pub open spec fn states_for(accounts: Map<u16, AccountState>, clients: Seq<u16>) -> Seq<
    AccountState,
> {
    clients.map_values(|client: u16| accounts[client])
}

/// The view of what applying a transaction gives back.
pub open spec fn outcome(result: Result<(), RecordError>) -> Result<(), Rejection> {
    match result {
        Ok(()) => Ok(()),
        Err(error) => Err(error@),
    }
}

impl Engine {
    /// A new engine, sized for the whole client key space up front.
    ///
    /// Client IDs are `u16`, so the table can never hold more than 65,536 entries.
    /// Allocating it once costs a fixed few megabytes and buys a run with no rehashing:
    /// no growth spikes, and no per-record chance of paying for a table copy.
    pub fn new() -> (engine: Engine)
        ensures
            engine@ == EngineState::empty(false),
    {
        Engine::with_capacity(u16::MAX as usize)
    }

    /// A new engine sized for `clients` accounts.
    ///
    /// A shard owns roughly `65,536 / shards` of the key space, so pre-sizing every shard
    /// for the whole of it would multiply the fixed cost by the shard count for no reason.
    pub fn with_capacity(clients: usize) -> (engine: Engine)
        ensures
            engine@ == EngineState::empty(false),
    {
        Engine::with_disputes(clients, false)
    }

    /// A new engine sized for `clients` accounts. If `withdrawals` holds, a withdrawal can be
    /// disputed as a deposit can.
    pub fn with_disputes(clients: usize, withdrawals: bool) -> (engine: Engine)
        ensures
            engine@ == EngineState::empty(withdrawals),
    {
        let engine = Engine {
            disputable_withdrawals: withdrawals,
            clients: HashMap::with_capacity(clients),
            frozen: HashSet::new(),
            evicted: Vec::new(),
        };
        assert(engine@ =~= EngineState::empty(withdrawals));
        engine
    }

    /// A deposit or withdrawal opens an account for a client we have not seen before.
    fn opened(&mut self, client: u16) -> (account: &mut Account)
        ensures
            account@ == old(self)@.opened(client),
            final(self)@ == old(self)@.holding(client, final(account)@),
    {
        let withdrawals = self.disputable_withdrawals;
        match self.clients.entry(client) {
            Entry::Occupied(entry) => entry.into_mut(),
            Entry::Vacant(entry) => entry.insert(Account::with_disputes(client, withdrawals)),
        }
    }

    /// A dispute, resolve or chargeback resolves against an existing client only. A
    /// record that is about to be rejected must not bring an account into existence.
    fn existing(&mut self, client: u16, tx: u32) -> (result: Result<&mut Account, RecordError>)
        ensures
            match result {
                Ok(account) => {
                    &&& old(self)@.accounts.contains_key(client)
                    &&& account@ == old(self)@.accounts[client]
                    &&& final(self)@ == old(self)@.holding(client, final(account)@)
                },
                Err(error) => {
                    &&& !old(self)@.accounts.contains_key(client)
                    &&& error@ == Rejection::UnknownTx { client, tx }
                    &&& final(self)@ == old(self)@
                },
            },
    {
        match self.clients.entry(client) {
            Entry::Occupied(entry) => Ok(entry.into_mut()),
            Entry::Vacant(_) => Err(RecordError::UnknownTx { client, tx }),
        }
    }

    /// Freezes a client and evicts its account.
    ///
    /// A chargeback is terminal for the whole account, so nothing it holds can be read
    /// again: the account leaves the table along with its entire transaction history, and
    /// what stays behind is two bytes in a set.
    fn freeze(&mut self, client: u16)
        requires
            old(self)@.accounts.contains_key(client),
        ensures
            final(self)@ == old(self)@.freezing(client, old(self)@.accounts[client]),
    {
        match self.clients.remove(&client) {
            Some(account) => self.evicted.push(account.row(true)),
            None => {},
        }
        self.frozen.insert(client);
        assert(self@ =~= old(self)@.freezing(client, old(self)@.accounts[client]));
    }

    /// Applies one transaction.
    pub fn apply(&mut self, transaction: Transaction) -> (result: Result<(), RecordError>)
        ensures
            (final(self)@, outcome(result)) == old(self)@.apply(transaction@),
    {
        // A frozen account is refused before anything else looks at it. This is the only
        // place that still knows the client existed: the account itself is long gone.
        let client: u16 = transaction.client();
        if self.frozen.contains(&client) {
            return Err(RecordError::AccountLocked(client));
        }
        match transaction {
            Transaction::Deposit { client, tx, amount } => self.opened(client).deposit(tx, amount),
            Transaction::Withdrawal { client, tx, amount } => self.opened(client).withdraw(
                tx,
                amount,
            ),
            Transaction::Dispute { client, tx } => match self.existing(client, tx) {
                Ok(account) => account.dispute(tx),
                Err(error) => Err(error),
            },
            Transaction::Resolve { client, tx } => match self.existing(client, tx) {
                Ok(account) => account.resolve(tx),
                Err(error) => Err(error),
            },
            Transaction::Chargeback { client, tx } => {
                let charged = match self.existing(client, tx) {
                    Ok(account) => account.chargeback(tx),
                    Err(error) => Err(error),
                };
                match charged {
                    Ok(()) => {
                        self.freeze(client);
                        Ok(())
                    },
                    Err(error) => Err(error),
                }
            },
        }
    }

    /// Rows for accounts frozen since this was last called.
    ///
    /// Draining rather than reading: a frozen account's row is final, so the caller can
    /// write it and forget it. This is what keeps peak memory tied to the accounts still
    /// in play rather than to every account the run has ever touched.
    pub fn take_evicted(&mut self) -> (rows: Vec<AccountRow>)
        ensures
            account::rows_of(rows@) == old(self)@.evicted,
            final(self)@ == (EngineState { evicted: Seq::empty(), ..old(self)@ }),
    {
        let mut rows = Vec::new();
        std::mem::swap(&mut rows, &mut self.evicted);
        assert(self@ =~= (EngineState { evicted: Seq::empty(), ..old(self)@ }));
        rows
    }

    /// Every row the engine still owes: whatever `take_evicted` has not taken, followed by
    /// the accounts still open. Leaves the engine empty.
    pub fn drain_rows(&mut self) -> (rows: Vec<AccountRow>)
        ensures
            account::rows_of(rows@) == old(self)@.reported(),
            final(self)@ == (EngineState {
                accounts: Map::empty(),
                evicted: Seq::empty(),
                ..old(self)@
            }),
    {
        let mut rows = self.take_evicted();
        let mut next: u32 = 0;
        let ghost accounts = self@.accounts;
        let ghost evicted = old(self)@.evicted;
        proof {
            assert(account::rows_of(rows@) =~= evicted + rows_for(
                accounts,
                ascending(accounts.dom(), 0),
            ));
        }
        while next < CLIENTS && !self.clients.is_empty()
            invariant
                next <= CLIENTS,
                account::rows_of(rows@) == evicted + rows_for(
                    accounts,
                    ascending(accounts.dom(), next as nat),
                ),
                forall|client: u16|
                    #![trigger self.clients@.contains_key(client)]
                    self.clients@.contains_key(client) <==> accounts.contains_key(client) && client
                        >= next,
                forall|client: u16| #[trigger]
                    self.clients@.contains_key(client) ==> self.clients@[client]@
                        == accounts[client],
                self@.frozen == old(self)@.frozen,
                self@.disputable_withdrawals == old(self)@.disputable_withdrawals,
                self@.evicted == Seq::<Row>::empty(),
            decreases CLIENTS - next,
        {
            let client: u16 = next as u16;
            let ghost before = rows@;
            assert(self.clients@.contains_key(client) <==> accounts.contains_key(client));
            match self.clients.remove(&client) {
                Some(account) => rows.push(account.row(false)),
                None => {},
            }
            proof {
                let listed = ascending(accounts.dom(), next as nat);
                if accounts.contains_key(client) {
                    assert(account::rows_of(rows@) =~= account::rows_of(before).push(
                        accounts[client].row(false),
                    ));
                    assert(rows_for(accounts, listed.push(client)) =~= rows_for(
                        accounts,
                        listed,
                    ).push(accounts[client].row(false)));
                }
                assert(account::rows_of(rows@) =~= evicted + rows_for(
                    accounts,
                    ascending(accounts.dom(), next as nat + 1),
                ));
            }
            next = next + 1;
        }
        proof {
            assert forall|client: u16| accounts.dom().contains(client) implies client < next by {
                if client >= next {
                    assert(self.clients@.contains_key(client));
                }
            }
            nothing_further(accounts.dom(), next as nat, CLIENTS as nat);
            assert(self@.accounts =~= Map::empty());
        }
        rows
    }

    /// True once a chargeback has frozen this client.
    pub fn is_frozen(&self, client: u16) -> (frozen: bool)
        ensures
            frozen == self@.frozen.contains(client),
    {
        self.frozen.contains(&client)
    }

    /// Every open account, in ascending order of the clients.
    pub fn accounts(&self) -> (accounts: Vec<&Account>)
        ensures
            states_of(accounts@) == states_for(self@.accounts, self@.clients()),
    {
        let mut accounts: Vec<&Account> = Vec::new();
        let mut next: u32 = 0;
        assert(states_of(accounts@) =~= states_for(
            self@.accounts,
            ascending(self@.accounts.dom(), 0),
        ));
        while next < CLIENTS
            invariant
                next <= CLIENTS,
                states_of(accounts@) == states_for(
                    self@.accounts,
                    ascending(self@.accounts.dom(), next as nat),
                ),
            decreases CLIENTS - next,
        {
            let client: u16 = next as u16;
            let ghost before = accounts@;
            match self.clients.get(&client) {
                Some(account) => accounts.push(account),
                None => {},
            }
            proof {
                let listed = ascending(self@.accounts.dom(), next as nat);
                if self.clients@.contains_key(client) {
                    assert(states_of(accounts@) =~= states_of(before).push(
                        self@.accounts[client],
                    ));
                    assert(states_for(self@.accounts, listed.push(client)) =~= states_for(
                        self@.accounts,
                        listed,
                    ).push(self@.accounts[client]));
                }
            }
            next = next + 1;
        }
        accounts
    }

    /// One account, if the client exists.
    pub fn account(&self, client: u16) -> (account: Option<&Account>)
        ensures
            match account {
                Some(account) => self@.accounts.contains_key(client) && account@
                    == self@.accounts[client],
                None => !self@.accounts.contains_key(client),
            },
    {
        self.clients.get(&client)
    }
}

impl Default for Engine {
    fn default() -> (engine: Engine)
        ensures
            engine@ == EngineState::empty(false),
    {
        Engine::new()
    }
}

} // verus!
