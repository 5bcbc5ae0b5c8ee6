//! Streaming the input into the engine.

use crate::digits;
use crate::engine::{Engine, EngineState};
use crate::error;
use crate::error::{FatalError, RecordError, Rejection};
use crate::record;
use crate::record::{Instruction, RawRecord, Transaction};
use vstd::prelude::*;
use vstd::string::StringExecFns;

verus! {

/// A validated record and the input line it came from.
///
/// The line number travels with the transaction because the place that rejects a record is
/// no longer the place that read it: under sharding the record has crossed a channel into
/// another thread by then, and a diagnostic that cannot name its line is close to useless.
#[derive(Clone, Copy, Debug)]
pub struct Entry {
    pub line: u64,
    pub transaction: Transaction,
}

/// What an [`Entry`] says.
pub struct Ticket {
    pub line: u64,
    pub instruction: Instruction,
}

impl Ticket {
    /// The report that the engine's refusal of the record makes.
    pub open spec fn refused(self, rejection: Rejection) -> Report {
        Report::of(self.line, Some(self.instruction.tx()), rejection)
    }
}

impl View for Entry {
    type V = Ticket;

    open spec fn view(&self) -> Ticket {
        Ticket { line: self.line, instruction: self.transaction@ }
    }
}

/// What a list of entries says.
pub open spec fn tickets(entries: Seq<Entry>) -> Seq<Ticket> {
    entries.map_values(|entry: Entry| entry@)
}

/// One entry more is one ticket more.
pub proof fn tickets_push(entries: Seq<Entry>, entry: Entry)
    ensures
        tickets(entries.push(entry)) == tickets(entries).push(entry@),
        tickets(Seq::empty()) == Seq::<Ticket>::empty(),
{
    assert(tickets(entries.push(entry)) =~= tickets(entries).push(entry@));
    assert(tickets(Seq::empty()) =~= Seq::<Ticket>::empty());
}

/// One step of the reader.
#[derive(Debug)]
pub enum Reading {
    /// A record that parsed and validated. It may still be refused by the engine.
    Ready(Entry),
    /// A record that never got as far as the engine, and its transaction ID if it has one.
    Rejected { line: u64, tx: Option<u32>, error: RecordError },
}

/// What a [`Reading`] says.
pub enum Item {
    Ready(Ticket),
    Rejected { line: u64, tx: Option<u32>, rejection: Rejection },
}

impl View for Reading {
    type V = Item;

    open spec fn view(&self) -> Item {
        match *self {
            Reading::Ready(entry) => Item::Ready(entry@),
            Reading::Rejected { line, tx, error } => Item::Rejected {
                line,
                tx,
                rejection: error@,
            },
        }
    }
}

/// What asking the CSV stream for one more record came to.
#[derive(Debug)]
pub enum Fetched<'a> {
    /// There is no further record.
    End,
    /// A record, and the line it starts on if that is known. It may not have the columns of a
    /// row; then there is what the CSV reader said.
    Record { line: Option<u64>, raw: Result<RawRecord<'a>, String> },
    /// The stream failed to give a record, on a line if that is known: because reading it
    /// failed, or because what it gave is no record.
    Failed { io: bool, line: Option<u64>, message: String, causes: Vec<String> },
}

/// A line number; zero where it is not known.
pub open spec fn line_or_zero(line: Option<u64>) -> u64 {
    match line {
        Some(line) => line,
        None => 0,
    }
}

/// What one more record from the stream is for the pipeline: an item, nothing more, or what
/// lies behind the loss of the stream.
pub open spec fn read(fetched: Fetched) -> Result<Option<Item>, Seq<Seq<char>>> {
    match fetched {
        Fetched::End => Ok(None),
        Fetched::Record { line, raw } => {
            let line = line_or_zero(line);
            let tx = match raw {
                Ok(raw) => Some(raw.tx),
                Err(_) => None,
            };
            let outcome = match raw {
                Ok(raw) => record::interpreted(
                    raw.kind@,
                    raw.client,
                    raw.tx,
                    record::text_in(raw.amount),
                ),
                Err(message) => Err(Rejection::Malformed(message@)),
            };
            Ok(
                Some(
                    match outcome {
                        Ok(instruction) => Item::Ready(Ticket { line, instruction }),
                        Err(rejection) => Item::Rejected { line, tx, rejection },
                    },
                ),
            )
        },
        Fetched::Failed { io, line, message, causes } => if io {
            Err(seq![message@] + error::texts(causes@))
        } else {
            Ok(
                Some(
                    Item::Rejected {
                        line: line_or_zero(line),
                        tx: None,
                        rejection: Rejection::Malformed(message@),
                    },
                ),
            )
        },
    }
}

/// `result` says what `expected` says.
pub open spec fn reads_as(
    result: Result<Option<Reading>, FatalError>,
    expected: Result<Option<Item>, Seq<Seq<char>>>,
) -> bool {
    match expected {
        Ok(Some(item)) => result matches Ok(Some(reading)) && reading@ == item,
        Ok(None) => result matches Ok(None),
        Err(causes) => result matches Err(error) && error.is_read_failure(causes),
    }
}

/// A message and what lies behind it, in one list.
fn chain(message: &String, causes: &Vec<String>) -> (all: Vec<String>)
    ensures
        error::texts(all@) == seq![message@] + error::texts(causes@),
{
    let mut all: Vec<String> = Vec::new();
    all.push(message.clone());
    let mut done: usize = 0;
    assert(error::texts(all@) =~= seq![message@] + error::texts(causes@.take(0)));
    while done < causes.len()
        invariant
            done <= causes@.len(),
            error::texts(all@) == seq![message@] + error::texts(causes@.take(done as int)),
        decreases causes@.len() - done,
    {
        let ghost before = all@;
        let cause = causes[done].clone();
        all.push(cause);
        proof {
            assert(error::texts(all@) =~= error::texts(before).push(cause@));
            assert(error::texts(causes@.take(done + 1)) =~= error::texts(
                causes@.take(done as int),
            ).push(cause@));
        }
        done = done + 1;
    }
    assert(causes@.take(done as int) =~= causes@);
    all
}

/// The next record, or `None` at the end of the stream.
///
/// Only losing the stream itself is an error here. A record that cannot be parsed is
/// the partner's mistake, like any other bad record, and comes back as
/// [`Reading::Rejected`].
pub fn next(fetched: &Fetched<'_>) -> (result: Result<Option<Reading>, FatalError>)
    ensures
        reads_as(result, read(*fetched)),
{
    match fetched {
        Fetched::End => Ok(None),
        Fetched::Record { line, raw } => {
            let line: u64 = match line {
                Some(line) => *line,
                None => 0,
            };
            let (tx, parsed) = match raw {
                Ok(raw) => (Some(raw.tx), Transaction::from_raw(raw)),
                Err(message) => (None, Err(RecordError::Malformed(message.clone()))),
            };
            Ok(
                Some(
                    match parsed {
                        Ok(transaction) => Reading::Ready(Entry { line, transaction }),
                        Err(error) => Reading::Rejected { line, tx, error },
                    },
                ),
            )
        },
        Fetched::Failed { io, line, message, causes } => {
            if *io {
                Err(FatalError::Read(chain(message, causes)))
            } else {
                let line: u64 = match line {
                    Some(line) => *line,
                    None => 0,
                };
                Ok(
                    Some(
                        Reading::Rejected {
                            line,
                            tx: None,
                            error: RecordError::Malformed(message.clone()),
                        },
                    ),
                )
            }
        },
    }
}

/// A rejected record: the line it was on, its transaction ID if it has one, and why it was
/// rejected.
pub struct Report {
    pub line: u64,
    pub tx: Option<u32>,
    pub message: Seq<char>,
}

impl Report {
    /// The report of a rejection.
    pub open spec fn of(line: u64, tx: Option<u32>, rejection: Rejection) -> Report {
        Report { line, tx, message: rejection.message() }
    }

    /// The line that is written for it.
    pub open spec fn text(self) -> Seq<char> {
        "line "@ + digits::digits(self.line as nat) + ": rejected, "@ + self.message + tx_note(
            self.tx,
        ) + "\n"@
    }
}

/// How a report names a transaction; a record without an ID has none to name.
pub open spec fn tx_note(tx: Option<u32>) -> Seq<char> {
    match tx {
        Some(tx) => " (tx "@ + digits::digits(tx as nat) + ")"@,
        None => Seq::empty(),
    }
}

/// One line for each report.
pub open spec fn report_lines(reports: Seq<Report>) -> Seq<char>
    decreases reports.len(),
{
    if reports.len() == 0 {
        Seq::empty()
    } else {
        report_lines(reports.drop_last()) + reports.last().text()
    }
}

/// The line that reports a rejected record.
pub fn report(line: u64, tx: Option<u32>, message: &str) -> (text: String)
    ensures
        text@ == (Report { line, tx, message: message@ }).text(),
{
    let mut text = "line ".to_owned();
    digits::push_number(&mut text, line);
    text.append(": rejected, ");
    text.append(message);
    match tx {
        Some(tx) => {
            let ghost before = text@;
            text.append(" (tx ");
            digits::push_number(&mut text, tx as u64);
            text.append(")");
            assert(text@ =~= before + tx_note(Some(tx)));
        },
        None => {
            assert(text@ + tx_note(None) =~= text@);
        },
    }
    text.append("\n");
    text
}

/// How far a run has come.
pub struct Progress {
    pub engine: EngineState,
    /// The rejected records, in the order in which they are reported.
    pub reported: Seq<Report>,
    /// The stream has ended, or has been lost with this behind it.
    pub ended: Option<Result<(), Seq<Seq<char>>>>,
}

impl Progress {
    /// The beginning of a run.
    pub open spec fn start(engine: EngineState) -> Progress {
        Progress { engine, reported: Seq::empty(), ended: None }
    }

    /// What one more record from the stream makes of a run.
    pub open spec fn advance(self, fetched: Fetched) -> Progress {
        if self.ended is Some {
            self
        } else {
            match read(fetched) {
                Ok(None) => Progress { ended: Some(Ok(())), ..self },
                Err(causes) => Progress { ended: Some(Err(causes)), ..self },
                Ok(Some(Item::Rejected { line, tx, rejection })) => Progress {
                    reported: self.reported.push(Report::of(line, tx, rejection)),
                    ..self
                },
                Ok(Some(Item::Ready(ticket))) => {
                    let (engine, answer) = self.engine.apply(ticket.instruction);
                    match answer {
                        Ok(()) => Progress { engine, ..self },
                        Err(rejection) => Progress {
                            engine,
                            reported: self.reported.push(ticket.refused(rejection)),
                            ..self
                        },
                    }
                },
            }
        }
    }
}

/// How far a run has come after a series of records from the stream.
pub open spec fn progress(engine: EngineState, fetches: Seq<Fetched>) -> Progress
    decreases fetches.len(),
{
    if fetches.len() == 0 {
        Progress::start(engine)
    } else {
        progress(engine, fetches.drop_last()).advance(fetches.last())
    }
}

/// Once a run has ended it stays as it is.
proof fn an_ended_run_stays(engine: EngineState, fetches: Seq<Fetched>, n: int)
    requires
        0 <= n <= fetches.len(),
        progress(engine, fetches.take(n)).ended is Some,
    ensures
        progress(engine, fetches) == progress(engine, fetches.take(n)),
    decreases fetches.len(),
{
    if n == fetches.len() {
        assert(fetches.take(n) =~= fetches);
    } else {
        let before = fetches.drop_last();
        assert(before.take(n) =~= fetches.take(n));
        an_ended_run_stays(engine, before, n);
    }
}

/// Reports a rejected record.
fn reject(diagnostics: &mut String, line: u64, tx: Option<u32>, error: &RecordError)
    ensures
        final(diagnostics)@ == old(diagnostics)@ + Report::of(line, tx, error@).text(),
{
    diagnostics.append(report(line, tx, error.message().as_str()).as_str());
}

/// What one record makes of a run that starts with it.
pub open spec fn step_from(engine: EngineState, fetched: Fetched) -> Progress {
    Progress::start(engine).advance(fetched)
}

/// How far a run has come after the first `n` records from the stream.
#[verifier::opaque]
spec fn after(engine: EngineState, fetches: Seq<Fetched>, n: int) -> Progress {
    progress(engine, fetches.take(n))
}

/// A run before its first record.
proof fn a_run_starts(engine: EngineState, fetches: Seq<Fetched>)
    ensures
        after(engine, fetches, 0) == Progress::start(engine),
{
    reveal(after);
    assert(fetches.take(0) =~= Seq::empty());
}

/// What a record makes of a run depends on the engine alone: what was reported before is only
/// added to.
proof fn a_record_adds_to_the_run(engine: EngineState, fetches: Seq<Fetched>, n: int)
    requires
        0 <= n < fetches.len(),
        after(engine, fetches, n).ended is None,
    ensures
        ({
            let run = after(engine, fetches, n);
            let step = step_from(run.engine, fetches[n]);
            after(engine, fetches, n + 1) == Progress {
                reported: run.reported + step.reported,
                ..step
            }
        }),
{
    reveal(after);
    let run = progress(engine, fetches.take(n));
    let step = Progress::start(run.engine).advance(fetches[n]);
    assert(fetches.take(n + 1).drop_last() =~= fetches.take(n));
    assert(run.advance(fetches[n]).reported =~= run.reported + step.reported);
}

/// A run that has ended, or that has been given every record, has come to its outcome.
proof fn a_run_ends(engine: EngineState, fetches: Seq<Fetched>, n: int)
    requires
        0 <= n <= fetches.len(),
        n == fetches.len() || after(engine, fetches, n).ended is Some,
    ensures
        progress(engine, fetches) == after(engine, fetches, n),
{
    reveal(after);
    if n == fetches.len() {
        assert(fetches.take(n) =~= fetches);
    } else {
        an_ended_run_stays(engine, fetches, n);
    }
}

/// Reporting in two goes writes one after the other.
proof fn reports_follow_each_other(first: Seq<Report>, second: Seq<Report>)
    ensures
        report_lines(first + second) == report_lines(first) + report_lines(second),
    decreases second.len(),
{
    let both = first + second;
    if second.len() == 0 {
        assert(both =~= first);
        assert(report_lines(first) + report_lines(second) =~= report_lines(first));
    } else {
        assert(both.drop_last() =~= first + second.drop_last());
        reports_follow_each_other(first, second.drop_last());
        assert(report_lines(both) =~= report_lines(first) + report_lines(second));
    }
}

/// Lists and texts can be put together in any grouping.
pub proof fn grouping_makes_no_difference<T>(a: Seq<T>, b: Seq<T>, c: Seq<T>)
    ensures
        (a + b) + c == a + (b + c),
        a + Seq::empty() == a,
{
    assert((a + b) + c =~= a + (b + c));
    assert(a + Seq::empty() =~= a);
}

/// One report is one line.
proof fn one_report_is_one_line(report: Report)
    ensures
        report_lines(seq![report]) == report.text(),
        report_lines(Seq::empty()) == Seq::<char>::empty(),
        Seq::<Report>::empty().push(report) == seq![report],
{
    assert(report_lines(Seq::empty()) =~= Seq::empty());
    assert(seq![report].drop_last() =~= Seq::empty());
    assert(seq![report].last() == report);
    assert(Seq::empty() + report.text() =~= report.text());
    assert(Seq::<Report>::empty().push(report) =~= seq![report]);
}

/// Every row that is rejected, on sight or by the engine, is reported once, and the report
/// names its line, its transaction ID and the reason.
pub proof fn a_rejected_row_is_named(engine: EngineState, line: Option<u64>, raw: RawRecord)
    ensures
        ({
            let reported = step_from(engine, Fetched::Record { line, raw: Ok(raw) }).reported;
            &&& reported.len() <= 1
            &&& reported.len() == 1 ==> {
                &&& reported[0].line == line_or_zero(line)
                &&& reported[0].tx == Some(raw.tx)
                &&& reported[0].text() == "line "@ + digits::digits(line_or_zero(line) as nat)
                    + ": rejected, "@ + reported[0].message + (" (tx "@ + digits::digits(
                    raw.tx as nat,
                ) + ")"@) + "\n"@
            }
        }),
{
    record::a_transaction_is_well_formed(
        raw.kind@,
        raw.client,
        raw.tx,
        record::text_in(raw.amount),
    );
}

/// Takes one record from the stream to the engine. Says whether it was rejected, or that the
/// stream has ended.
///
/// Whoever pulls the records off a stream one by one calls this for each of them, and no two
/// have to be held at once.
pub fn take(fetched: &Fetched<'_>, engine: &mut Engine, diagnostics: &mut String) -> (result:
    Result<Option<bool>, FatalError>)
    ensures
        ({
            let step = step_from(old(engine)@, *fetched);
            &&& final(engine)@ == step.engine
            &&& final(diagnostics)@ == old(diagnostics)@ + report_lines(step.reported)
            &&& match step.ended {
                None => result matches Ok(Some(rejected)) && step.reported.len() == if rejected {
                    1nat
                } else {
                    0nat
                },
                Some(Ok(())) => result matches Ok(None) && step.reported.len() == 0,
                Some(Err(causes)) => {
                    &&& result matches Err(error) && error.is_read_failure(causes)
                    &&& step.reported.len() == 0
                },
            }
        }),
{
    proof {
            assert forall|report: Report|
            report_lines(#[trigger] Seq::<Report>::empty().push(report)) == report.text() by {
            one_report_is_one_line(report);
        }
        grouping_makes_no_difference(diagnostics@, Seq::empty(), Seq::empty());
    }
    match next(fetched) {
        Ok(None) => Ok(None),
        Ok(Some(Reading::Ready(entry))) => match engine.apply(entry.transaction) {
            Ok(()) => Ok(Some(false)),
            Err(error) => {
                reject(diagnostics, entry.line, Some(entry.transaction.tx()), &error);
                Ok(Some(true))
            },
        },
        Ok(Some(Reading::Rejected { line, tx, error })) => {
            reject(diagnostics, line, tx, &error);
            Ok(Some(true))
        },
        Err(error) => Err(error),
    }
}

/// Applies every record that the stream gives to `engine`, up to its end.
///
/// The single-threaded path: one engine, records applied in input order, diagnostics in
/// input order too. Sharding is the same work spread over several engines.
///
/// Rejected records are reported to `diagnostics` and counted; only losing the stream stops
/// the run.
pub fn run(fetches: &Vec<Fetched<'_>>, engine: &mut Engine, diagnostics: &mut String) -> (result:
    Result<u64, FatalError>)
    ensures
        ({
            let run = progress(old(engine)@, fetches@);
            &&& final(engine)@ == run.engine
            &&& final(diagnostics)@ == old(diagnostics)@ + report_lines(run.reported)
            &&& match run.ended {
                Some(Err(causes)) => result matches Err(error) && error.is_read_failure(causes),
                _ => result matches Ok(rejected) && rejected == run.reported.len(),
            }
        }),
{
    let mut rejected: u64 = 0;
    let mut done: usize = 0;
    let mut ended: bool = false;
    let mut lost: Option<FatalError> = None;
    let ghost start = old(engine)@;
    proof {
        a_run_starts(start, fetches@);
        grouping_makes_no_difference(diagnostics@, Seq::empty(), Seq::empty());
    }
    while !ended && done < fetches.len()
        invariant
            done <= fetches@.len(),
            rejected <= done,
            start == old(engine)@,
            ({
                let run = after(start, fetches@, done as int);
                &&& run.engine == engine@
                &&& run.reported.len() == rejected
                &&& diagnostics@ == old(diagnostics)@ + report_lines(run.reported)
                &&& ended == (run.ended is Some)
                &&& match run.ended {
                    Some(Err(causes)) => lost matches Some(error) && error.is_read_failure(causes),
                    _ => lost is None,
                }
            }),
        decreases fetches@.len() - done,
    {
        proof {
            let run = after(start, fetches@, done as int);
            let step = step_from(run.engine, fetches@[done as int]);
            a_record_adds_to_the_run(start, fetches@, done as int);
            reports_follow_each_other(run.reported, step.reported);
            grouping_makes_no_difference(
                old(diagnostics)@,
                report_lines(run.reported),
                report_lines(step.reported),
            );
        }
        match take(&fetches[done], engine, diagnostics) {
            Ok(None) => ended = true,
            Ok(Some(refused)) => if refused {
                rejected = rejected + 1;
            },
            Err(error) => {
                lost = Some(error);
                ended = true;
            },
        }
        done = done + 1;
    }
    proof {
        a_run_ends(start, fetches@, done as int);
    }
    match lost {
        Some(error) => Err(error),
        None => Ok(rejected),
    }
}

} // verus!
