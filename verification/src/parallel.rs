//! The sharded pipeline: one reader, N engines, one writer.
//!
//! ```text
//!                     +----------> shard 0 -+
//!   input -- reader --+----------> shard 1 -+--> writer --> stdout
//!            parse    +----------> shard N -+               stderr
//!            route
//! ```
//!
//! Each stage is a value that is handed what arrives and says what has to be done next;
//! moving things between the stages is left to whoever runs them.
//!
//! # Why this is safe to shard at all
//!
//! No transaction can reach across clients: a dispute, resolve or chargeback must name a
//! transaction belonging to the same client that sent it. Account state is therefore
//! perfectly partitionable by client, and a shard needs to synchronise with no other shard
//! for anything. Routing is a pure function of the client ID, so every record for an account
//! reaches the same shard, and a single reader feeding a FIFO channel keeps them in input
//! order. Per-account ordering, the only ordering the semantics depend on, survives.

use crate::account;
use crate::account::{AccountRow, Row};
use crate::digits;
use crate::dispatch;
use crate::dispatch::{Dispatcher, Load, Parcel, Pending};
use crate::engine::{Engine, EngineState};
use crate::error::{FatalError, RecordError};
use crate::output;
use crate::pipeline;
use crate::pipeline::{Entry, Fetched, Item, Reading, Report, Ticket};
use crate::record::Instruction;
use crate::route::Router;
use crate::sharding_laws;
use vstd::prelude::*;
use vstd::string::StringExecFns;

verus! {

/// How many batches may be queued to one shard before the reader blocks.
pub const QUEUE: usize = 16;

/// What the writer receives.
#[derive(Debug)]
pub enum Out {
    Row(AccountRow),
    Rejected { line: u64, tx: Option<u32>, message: String },
}

/// What an [`Out`] says.
pub enum Notice {
    Row(Row),
    Rejected(Report),
}

impl View for Out {
    type V = Notice;

    open spec fn view(&self) -> Notice {
        match *self {
            Out::Row(row) => Notice::Row(row@),
            Out::Rejected { line, tx, message } => Notice::Rejected(
                Report { line, tx, message: message@ },
            ),
        }
    }
}

/// What a list of messages to the writer says.
pub open spec fn notices(outs: Seq<Out>) -> Seq<Notice> {
    outs.map_values(|out: Out| out@)
}

/// How many shards suit a machine that runs this many threads at once.
pub open spec fn suited_shards(parallelism: int) -> int {
    if parallelism <= 1 {
        1
    } else if parallelism < 4 {
        2
    } else {
        parallelism - 2
    }
}

/// Chooses a shard count for this machine.
///
/// Two threads are reserved before sharding starts: one reads and parses, one writes. Both
/// are real, permanently busy stages, and taking them out of the count keeps the shards
/// from contending with the two stages that feed and drain them. Below four cores that
/// subtraction would leave nothing, so the floor is two shards: still worth having, since
/// a shard blocked on a channel is not using a core. A single-core machine gets one shard
/// and one channel, which is the sharding turned off rather than a special case in the
/// code.
pub fn shards_for(parallelism: usize) -> (shards: usize)
    ensures
        shards == suited_shards(parallelism as int),
        shards > 0,
{
    if parallelism <= 1 {
        1
    } else {
        let left: usize = parallelism.saturating_sub(2);
        if left < 2 {
            2
        } else {
            left
        }
    }
}

/// The message that reports a rejected record.
fn rejected(line: u64, tx: Option<u32>, error: &RecordError) -> (out: Out)
    ensures
        out@ == Notice::Rejected(Report::of(line, tx, error@)),
{
    Out::Rejected { line, tx, message: error.message() }
}

/// What one more record from the stream makes of the reading end.
#[verifier::ext_equal]
pub struct Step {
    pub pending: Pending,
    /// Sent to the shards, in this order.
    pub sent: Seq<Load>,
    /// Reported to the writer.
    pub noted: Seq<Report>,
    /// Nothing more is to be read.
    pub finished: bool,
}

/// Takes in what asking the stream for one more record came to.
pub open spec fn taken_in(pending: Pending, fetched: Fetched) -> Step {
    match pipeline::read(fetched) {
        Ok(Some(Item::Ready(ticket))) => {
            let (pending, sent) = pending.stage(ticket);
            Step { pending, sent, noted: Seq::empty(), finished: false }
        },
        Ok(Some(Item::Rejected { line, tx, rejection })) => Step {
            pending,
            sent: Seq::empty(),
            noted: seq![Report::of(line, tx, rejection)],
            finished: false,
        },
        _ => Step { pending, sent: Seq::empty(), noted: Seq::empty(), finished: true },
    }
}

/// The messages in an optional one.
pub open spec fn notices_in(out: Option<Out>) -> Seq<Notice> {
    match out {
        Some(out) => seq![out@],
        None => Seq::empty(),
    }
}

/// The reading end: validates what the stream gives, shares the records out to the shards, and
/// reports those that never reach one.
#[derive(Debug)]
pub struct Intake {
    dispatcher: Dispatcher,
    fatal: Option<FatalError>,
}

/// What has to be done once a record has been taken in.
#[derive(Debug)]
pub struct Taken {
    /// To be sent to the shards, in this order.
    pub parcels: Vec<Parcel>,
    /// To be sent to the writer.
    pub notice: Option<Out>,
    /// Nothing more is to be read.
    pub finished: bool,
}

impl Intake {
    /// The records that have not left yet.
    pub closed spec fn pending(self) -> Pending {
        self.dispatcher@
    }

    /// What ended the reading before the end of the stream.
    pub closed spec fn fatal(self) -> Option<FatalError> {
        self.fatal
    }

    /// The intake is in order.
    pub closed spec fn wf(self) -> bool {
        self.dispatcher.wf()
    }

    /// A reading end for the shards of `router`.
    pub fn new(router: Router) -> (intake: Intake)
        ensures
            intake.wf(),
            intake.pending() == Pending::nothing(router),
            intake.fatal() is None,
    {
        Intake { dispatcher: Dispatcher::new(router), fatal: None }
    }

    /// Takes in what asking the stream for one more record came to.
    pub fn take(&mut self, fetched: &Fetched<'_>) -> (taken: Taken)
        requires
            old(self).wf(),
        ensures
            final(self).wf(),
            ({
                let step = taken_in(old(self).pending(), *fetched);
                &&& final(self).pending() == step.pending
                &&& dispatch::loads(taken.parcels@) == step.sent
                &&& notices_in(taken.notice) == as_rejections(step.noted)
                &&& taken.finished == step.finished
            }),
            match pipeline::read(*fetched) {
                Err(causes) => final(self).fatal() matches Some(error) && error.is_read_failure(
                    causes,
                ),
                _ => final(self).fatal() == old(self).fatal(),
            },
    {
        let mut parcels: Vec<Parcel> = Vec::new();
        let mut notice: Option<Out> = None;
        let mut finished: bool = false;
        proof {
            assert(dispatch::loads(parcels@) =~= Seq::empty());
            assert(as_rejections(Seq::empty()) =~= Seq::empty());
            assert forall|report: Report| #[trigger]
                as_rejections(seq![report]) == seq![Notice::Rejected(report)] by {
                assert(as_rejections(seq![report]) =~= seq![Notice::Rejected(report)]);
            }
        }
        match pipeline::next(fetched) {
            Ok(None) => finished = true,
            // A record the parser refused never reaches a shard, so the reader reports it.
            Ok(Some(Reading::Rejected { line, tx, error })) => {
                notice = Some(rejected(line, tx, &error));
            },
            Ok(Some(Reading::Ready(entry))) => parcels = self.dispatcher.stage(entry),
            Err(error) => {
                self.fatal = Some(error);
                finished = true;
            },
        }
        Taken { parcels, notice, finished }
    }

    /// Notes that the stream could not be read at all.
    pub fn fail(&mut self, error: FatalError)
        ensures
            final(self).wf() == old(self).wf(),
            final(self).pending() == old(self).pending(),
            final(self).fatal() == Some(error),
    {
        self.fatal = Some(error);
    }

    /// Hands over everything that has not left yet, whatever ended the reading: the shards
    /// have to be shut down in any case.
    pub fn close(&mut self) -> (parcels: Vec<Parcel>)
        requires
            old(self).wf(),
        ensures
            final(self).wf(),
            dispatch::loads(parcels@) == old(self).pending().close(),
            final(self).pending() == Pending::nothing(old(self).pending().router),
            final(self).fatal() == old(self).fatal(),
    {
        self.dispatcher.close()
    }

    /// What came of the reading.
    pub fn outcome(self) -> (result: Result<(), FatalError>)
        ensures
            match self.fatal() {
                None => result is Ok,
                Some(error) => result == Err::<(), FatalError>(error),
            },
    {
        match self.fatal {
            None => Ok(()),
            Some(error) => Err(error),
        }
    }
}

/// What the tickets ask for.
pub open spec fn instructions(tickets: Seq<Ticket>) -> Seq<Instruction> {
    tickets.map_values(|ticket: Ticket| ticket.instruction)
}

/// The report that an engine's refusal of a record makes; none if it accepts it.
pub open spec fn refusal(engine: EngineState, ticket: Ticket) -> Seq<Report> {
    match engine.apply(ticket.instruction).1 {
        Ok(()) => Seq::empty(),
        Err(rejection) => seq![ticket.refused(rejection)],
    }
}

/// The records that an engine refuses, while it is given all of `tickets`, and why.
pub open spec fn refusals(engine: EngineState, tickets: Seq<Ticket>) -> Seq<Report>
    decreases tickets.len(),
{
    if tickets.len() == 0 {
        Seq::empty()
    } else {
        refusals(engine, tickets.drop_last()) + refusal(
            sharding_laws::run(engine, instructions(tickets.drop_last())),
            tickets.last(),
        )
    }
}

/// Rejected records on their way to the writer.
pub open spec fn as_rejections(reports: Seq<Report>) -> Seq<Notice> {
    reports.map_values(|report: Report| Notice::Rejected(report))
}

/// Rows on their way to the writer.
pub open spec fn as_notices(rows: Seq<Row>) -> Seq<Notice> {
    rows.map_values(|row: Row| Notice::Row(row))
}

/// The engine once its evicted rows have been taken.
pub open spec fn taken_from(engine: EngineState) -> EngineState {
    EngineState { evicted: Seq::empty(), ..engine }
}

/// One shard: an engine over the slice of the key space routed to it.
#[derive(Debug)]
pub struct Shard {
    engine: Engine,
}

impl View for Shard {
    type V = EngineState;

    closed spec fn view(&self) -> EngineState {
        self.engine@
    }
}

impl Shard {
    /// One of `shards` shards. If `withdrawals` holds, a withdrawal can be disputed as a
    /// deposit can.
    pub fn new(shards: usize, withdrawals: bool) -> (shard: Shard)
        requires
            shards > 0,
        ensures
            shard@ == EngineState::empty(withdrawals),
    {
        // Each shard owns roughly its share of the 65,536 possible clients, so it pre-sizes for
        // that share rather than for all of them. A little headroom absorbs an uneven split.
        let share: usize = u16::MAX as usize / shards;
        let capacity: usize = share.saturating_add(64);
        Shard { engine: Engine::with_disputes(capacity, withdrawals) }
    }

    /// Applies a batch. What comes back is for the writer: first the records that were
    /// refused, then the rows of the accounts that were frozen.
    pub fn apply(&mut self, entries: &Vec<Entry>) -> (outs: Vec<Out>)
        ensures
            ({
                let tickets = pipeline::tickets(entries@);
                let end = sharding_laws::run(old(self)@, instructions(tickets));
                &&& notices(outs@) == as_rejections(refusals(old(self)@, tickets)) + as_notices(
                    end.evicted,
                )
                &&& final(self)@ == taken_from(end)
            }),
    {
        let mut outs: Vec<Out> = Vec::new();
        let mut done: usize = 0;
        let ghost start = old(self)@;
        let ghost tickets = pipeline::tickets(entries@);
        assert(instructions(tickets.take(0)) =~= Seq::empty());
        assert(notices(outs@) =~= as_rejections(refusals(start, tickets.take(0))));
        while done < entries.len()
            invariant
                done <= entries@.len(),
                tickets == pipeline::tickets(entries@),
                self@ == sharding_laws::run(start, instructions(tickets.take(done as int))),
                notices(outs@) == as_rejections(refusals(start, tickets.take(done as int))),
            decreases entries@.len() - done,
        {
            let entry = entries[done];
            let ghost before = outs@;
            let ghost refused = refusals(start, tickets.take(done as int));
            let ghost report = refusal(self@, entry@);
            proof {
                let more = tickets.take(done + 1);
                assert(more.drop_last() =~= tickets.take(done as int));
                assert(more.last() == entry@);
                assert(instructions(more).drop_last() =~= instructions(more.drop_last()));
                assert(instructions(more).last() == entry@.instruction);
                assert(as_rejections(refused + report) =~= as_rejections(refused) + as_rejections(
                    report,
                ));
            }
            match self.engine.apply(entry.transaction) {
                Ok(()) => {
                    assert(notices(outs@) =~= notices(before) + as_rejections(report));
                },
                Err(error) => {
                    outs.push(rejected(entry.line, Some(entry.transaction.tx()), &error));
                    assert(notices(outs@) =~= notices(before) + as_rejections(report));
                },
            }
            done = done + 1;
        }
        assert(tickets.take(done as int) =~= tickets);
        // Frozen accounts leave now rather than at the end of the run: this is the whole
        // point of evicting them.
        let rows = self.engine.take_evicted();
        push_rows(&mut outs, &rows);
        outs
    }

    /// Shuts the shard down. What comes back is for the writer: every row it still owes.
    pub fn finish(&mut self) -> (outs: Vec<Out>)
        ensures
            notices(outs@) == as_notices(old(self)@.reported()),
            final(self)@ == (EngineState {
                accounts: Map::empty(),
                evicted: Seq::empty(),
                ..old(self)@
            }),
    {
        let mut outs: Vec<Out> = Vec::new();
        let rows = self.engine.drain_rows();
        push_rows(&mut outs, &rows);
        assert(notices(outs@) =~= as_notices(old(self)@.reported()));
        outs
    }
}

/// Appends rows to the messages for the writer.
fn push_rows(outs: &mut Vec<Out>, rows: &Vec<AccountRow>)
    ensures
        notices(final(outs)@) == notices(old(outs)@) + as_notices(account::rows_of(rows@)),
{
    let mut done: usize = 0;
    assert(notices(old(outs)@) =~= notices(old(outs)@) + as_notices(
        account::rows_of(rows@.take(0)),
    ));
    while done < rows.len()
        invariant
            done <= rows@.len(),
            notices(outs@) == notices(old(outs)@) + as_notices(
                account::rows_of(rows@.take(done as int)),
            ),
        decreases rows@.len() - done,
    {
        let ghost before = outs@;
        outs.push(Out::Row(rows[done]));
        proof {
            let row = rows@[done as int]@;
            assert(notices(outs@) =~= notices(before).push(Notice::Row(row)));
            assert(as_notices(account::rows_of(rows@.take(done + 1))) =~= as_notices(
                account::rows_of(rows@.take(done as int)),
            ).push(Notice::Row(row)));
        }
        done = done + 1;
    }
    assert(rows@.take(done as int) =~= rows@);
}

/// A line for one of the two output streams.
#[derive(Debug)]
pub enum Output {
    Stdout(String),
    Stderr(String),
}

/// What an [`Output`] is.
pub enum Line {
    Stdout(Seq<char>),
    Stderr(Seq<char>),
}

impl View for Output {
    type V = Line;

    open spec fn view(&self) -> Line {
        match *self {
            Output::Stdout(text) => Line::Stdout(text@),
            Output::Stderr(text) => Line::Stderr(text@),
        }
    }
}

/// The line that is written for a message: a row is reported on standard output, a rejected
/// record on standard error.
pub open spec fn line_for(notice: Notice) -> Line {
    match notice {
        Notice::Row(row) => Line::Stdout(output::row_line(row)),
        Notice::Rejected(report) => Line::Stderr(report.text()),
    }
}

/// The single writer. Deciding for both streams is what keeps a row and a diagnostic from
/// interleaving mid-line.
#[derive(Debug)]
pub struct Writer {
    rejected: u64,
}

impl Writer {
    /// How many rejected records have been reported.
    pub closed spec fn count(self) -> u64 {
        self.rejected
    }

    /// A writer that has written nothing.
    pub fn new() -> (writer: Writer)
        ensures
            writer.count() == 0,
    {
        Writer { rejected: 0 }
    }

    /// What to write first.
    pub fn header(&self) -> (line: String)
        ensures
            line@ == output::header_line(),
    {
        output::header()
    }

    /// What to write for a message: a row is reported on standard output, a rejected record on
    /// standard error.
    pub fn write(&mut self, out: &Out) -> (written: Output)
        requires
            out is Rejected ==> old(self).count() < u64::MAX,
        ensures
            written@ == line_for(out@),
            final(self).count() == old(self).count() + if out is Rejected {
                1int
            } else {
                0int
            },
    {
        match out {
            Out::Row(row) => Output::Stdout(output::line(row)),
            Out::Rejected { line, tx, message } => {
                self.rejected = self.rejected + 1;
                Output::Stderr(pipeline::report(*line, *tx, message.as_str()))
            },
        }
    }

    /// What to write on standard error last, if anything was rejected.
    pub fn summary(&self) -> (text: Option<String>)
        ensures
            match text {
                Some(text) => self.count() > 0 && text@ == digits::digits(self.count() as nat)
                    + " record(s) rejected\n"@,
                None => self.count() == 0,
            },
    {
        if self.rejected > 0 {
            let mut text = String::new();
            digits::push_number(&mut text, self.rejected);
            assert(text@ =~= digits::digits(self.rejected as nat));
            text.append(" record(s) rejected\n");
            Some(text)
        } else {
            None
        }
    }

    /// How many rejected records have been reported.
    pub fn rejected(&self) -> (rejected: u64)
        ensures
            rejected == self.count(),
    {
        self.rejected
    }
}

/// What came of the run: the writer's failure comes before the reader's, and without either
/// there is the number of rejected records.
pub fn conclude(read: Result<(), FatalError>, written: Result<u64, FatalError>) -> (result: Result<
    u64,
    FatalError,
>)
    ensures
        result == match (written, read) {
            (Err(error), _) => Err(error),
            (Ok(_), Err(error)) => Err(error),
            (Ok(rejected), Ok(())) => Ok(rejected),
        },
{
    match written {
        Err(error) => Err(error),
        Ok(rejected) => match read {
            Err(error) => Err(error),
            Ok(()) => Ok(rejected),
        },
    }
}

} // verus!
