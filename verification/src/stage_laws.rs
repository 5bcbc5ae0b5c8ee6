//! What the calls around the engine come to, stated of the calls themselves: reading, reporting,
//! routing, and the stages of the sharded pipeline.

use crate::amount::Amount;
use crate::call_laws;
use crate::cli::Cli;
use crate::decimal;
use crate::decimal::{Decimal, Number};
use crate::digits;
use crate::dispatch;
use crate::dispatch::{Parcel, Pending};
use crate::engine::{Engine, EngineState};
use crate::error;
use crate::error::{FatalError, RecordError, Rejection};
use crate::output;
use crate::parallel;
use crate::parallel::{Intake, Notice, Out, Output, Shard, Taken, Writer};
use crate::parallel_laws;
use crate::pipeline;
use crate::pipeline::{Entry, Fetched, Reading, Report, Ticket};
use crate::record;
use crate::record::{Instruction, RawRecord};
use crate::route;
use crate::route::Router;
use crate::sharding_laws;
use std::cmp::Ordering;
use vstd::prelude::*;

verus! {

/// A line number; zero where it is not known.
pub open spec fn known_line(line: Option<u64>) -> u64 {
    if line is Some {
        line->0
    } else {
        0
    }
}

/// The line that reports a rejected record: where it was, why it was rejected, and its ID if it
/// has one.
pub open spec fn report_text(line: u64, tx: Option<u32>, reason: Seq<char>) -> Seq<char> {
    let start = "line "@ + digits::digits(line as nat) + ": rejected, "@ + reason;
    if tx is Some {
        start + (" (tx "@ + digits::digits(tx->0 as nat) + ")"@) + "\n"@
    } else {
        start + "\n"@
    }
}

/// A report is written as the line that it is to be.
pub proof fn a_report_is_written_as_it_is(report: Report)
    ensures
        report.text() == report_text(report.line, report.tx, report.message),
{
    let start = "line "@ + digits::digits(report.line as nat) + ": rejected, "@ + report.message;
    assert(start + Seq::empty() =~= start);
}

/// A call that reports a rejected record gives that line.
pub proof fn a_call_of_report(line: u64, tx: Option<u32>, message: &str, text: String)
    requires
        call_ensures(pipeline::report, (line, tx, message), text),
    ensures
        text@ == report_text(line, tx, message@),
{
    a_report_is_written_as_it_is(Report { line, tx, message: message@ });
}

/// Reports are written one line after the other.
pub proof fn reports_are_written_one_by_one(reports: Seq<Report>, report: Report)
    ensures
        pipeline::report_lines(Seq::empty()) == Seq::<char>::empty(),
        pipeline::report_lines(reports.push(report)) == pipeline::report_lines(reports)
            + report_text(report.line, report.tx, report.message),
{
    a_report_is_written_as_it_is(report);
    assert(reports.push(report).drop_last() =~= reports);
}

/// `text` gives the reason for a rejection: which client and which transaction it is about, and
/// what was written, asked for or available.
pub open spec fn gives_the_reason(text: Seq<char>, rejection: Rejection) -> bool {
    match rejection {
        Rejection::Malformed(cause) => text == "could not be parsed as a CSV record: "@ + cause,
        Rejection::UnknownType(kind) => text == "unrecognised transaction type `"@ + kind + "`"@,
        Rejection::MissingAmount(kind) => text == "a "@ + kind + " requires an amount"@,
        Rejection::MalformedAmount(raw) => text == "amount `"@ + raw
            + "` is not a valid decimal number"@,
        Rejection::NegativeAmount(raw) => text == "amount `"@ + raw + "` is negative"@,
        Rejection::ExcessPrecision(raw) => text == "amount `"@ + raw
            + "` has more than four decimal places"@,
        Rejection::DuplicateTx { client, tx } => text == "client "@ + digits::digits(
            client as nat,
        ) + " already has a transaction "@ + digits::digits(tx as nat),
        Rejection::UnknownTx { client, tx } => text == "client "@ + digits::digits(client as nat)
            + " has no disputable transaction "@ + digits::digits(tx as nat),
        Rejection::AlreadyDisputed { client, tx } => text == "transaction "@ + digits::digits(
            tx as nat,
        ) + " of client "@ + digits::digits(client as nat) + " is already under dispute"@,
        Rejection::NotDisputed { client, tx } => text == "transaction "@ + digits::digits(
            tx as nat,
        ) + " of client "@ + digits::digits(client as nat) + " is not under dispute"@,
        Rejection::InsufficientFunds { client, available, requested } => text == "client "@
            + digits::digits(client as nat) + " has "@ + available + " available, cannot withdraw "@
            + requested,
        Rejection::AccountLocked(client) => text == "client "@ + digits::digits(client as nat)
            + " is locked"@,
        Rejection::Overflow(client) => text == "would overflow the balances of client "@
            + digits::digits(client as nat),
    }
}

/// A message gives the reason for its rejection.
pub proof fn a_message_gives_the_reason(rejection: Rejection)
    ensures
        gives_the_reason(rejection.message(), rejection),
{
}

/// A call for the message of an error gives the reason.
pub proof fn a_call_of_message(error: &RecordError, text: String)
    requires
        call_ensures(RecordError::message, (error,), text),
    ensures
        gives_the_reason(text@, error@),
{
}

/// What a fatal error says first, and then a line for each cause, from the nearest to the
/// furthest.
pub proof fn a_call_of_fatal_report(error: &FatalError, headline: String, text: String)
    requires
        call_ensures(FatalError::message, (error,), headline),
        call_ensures(FatalError::report, (error,), text),
    ensures
        match *error {
            FatalError::Open { path, .. } => headline@ == "cannot open `"@ + path@ + "`"@,
            FatalError::Read(_) => headline@ == "cannot read the input"@,
            FatalError::Write(_) => headline@ == "cannot write the output"@,
            FatalError::Runtime(_) => headline@ == "cannot start the worker runtime"@,
            FatalError::ReaderPanicked => headline@ == "the input reader stopped unexpectedly"@,
        },
        ({
            let start = "error: "@ + headline@ + "\n"@;
            match *error {
                FatalError::Open { causes, .. } => text@ == start + error::cause_lines(causes@),
                FatalError::Read(causes) => text@ == start + error::cause_lines(causes@),
                FatalError::Write(causes) => text@ == start + error::cause_lines(causes@),
                FatalError::Runtime(causes) => text@ == start + error::cause_lines(causes@),
                FatalError::ReaderPanicked => text@ == start,
            }
        }),
{
    assert("error: "@ + headline@ + "\n"@ + Seq::empty() =~= "error: "@ + headline@ + "\n"@);
}

/// Causes are written one line after the other.
pub proof fn causes_are_written_one_by_one(causes: Seq<String>, cause: String)
    ensures
        error::cause_lines(Seq::empty()) == Seq::<char>::empty(),
        error::cause_lines(causes.push(cause)) == error::cause_lines(causes) + "  caused by: "@
            + cause@ + "\n"@,
{
    assert(causes.push(cause).drop_last() =~= causes);
}

/// `all` is a message and, behind it, what lies behind it.
pub open spec fn is_chain(all: Seq<String>, message: Seq<char>, causes: Seq<String>) -> bool {
    &&& all.len() == causes.len() + 1
    &&& all[0]@ == message
    &&& forall|i: int| 0 <= i < causes.len() ==> #[trigger] all[i + 1]@ == causes[i]@
}

/// A chain is known by its texts.
proof fn texts_make_a_chain(all: Seq<String>, message: Seq<char>, causes: Seq<String>)
    requires
        error::texts(all) == seq![message] + error::texts(causes),
    ensures
        is_chain(all, message, causes),
{
    let listed = error::texts(all);
    let expected = seq![message] + error::texts(causes);
    assert(listed.len() == all.len());
    assert(all[0]@ == listed[0]);
    assert forall|i: int| 0 <= i < causes.len() implies #[trigger] all[i + 1]@ == causes[i]@ by {
        assert(listed[i + 1] == all[i + 1]@);
        assert(expected[i + 1] == error::texts(causes)[i]);
    }
}

/// The amount column of a row.
pub open spec fn amount_column(raw: RawRecord) -> Option<Seq<char>> {
    if raw.amount is Some {
        Some(raw.amount->0@)
    } else {
        None
    }
}

/// What is to come of asking the stream for a record: at its end there is nothing more. A row is
/// ready for the engine or rejected with its ID. What is no row is rejected without one. Only
/// losing the stream is fatal, with everything that lies behind it.
pub open spec fn reading_rule(
    fetched: Fetched,
    result: Result<Option<Reading>, FatalError>,
) -> bool {
    match fetched {
        Fetched::End => result matches Ok(None),
        Fetched::Record { line, raw: Ok(raw) } => result matches Ok(Some(reading))
            && match reading {
            Reading::Ready(entry) => entry.line == known_line(line) && call_laws::row_rule(
                raw.kind@,
                raw.client,
                raw.tx,
                amount_column(raw),
                Ok(entry.transaction@),
            ),
            Reading::Rejected { line: its_line, tx, error } => its_line == known_line(line) && tx
                == Some(raw.tx) && call_laws::row_rule(
                raw.kind@,
                raw.client,
                raw.tx,
                amount_column(raw),
                Err(error@),
            ),
        },
        Fetched::Record { line, raw: Err(said) } => result matches Ok(
            Some(Reading::Rejected { line: its_line, tx, error }),
        ) && its_line == known_line(line) && tx is None && error@ == Rejection::Malformed(said@),
        Fetched::Failed { io, line, message, causes } => if io {
            result matches Err(FatalError::Read(all)) && is_chain(all@, message@, causes@)
        } else {
            result matches Ok(Some(Reading::Rejected { line: its_line, tx, error })) && its_line
                == known_line(line) && tx is None && error@ == Rejection::Malformed(message@)
        },
    }
}

/// Asking the stream for a record comes to what it is to come to.
pub proof fn a_call_of_next(fetched: &Fetched<'_>, result: Result<Option<Reading>, FatalError>)
    requires
        call_ensures(pipeline::next, (fetched,), result),
    ensures
        reading_rule(*fetched, result),
{
    if let Fetched::Record { line, raw: Ok(raw) } = *fetched {
        call_laws::a_row_keeps_to_the_rule(
            raw.kind@,
            raw.client,
            raw.tx,
            record::text_in(raw.amount),
        );
    }
    if let Fetched::Failed { io: true, line, message, causes } = *fetched {
        if let Err(FatalError::Read(all)) = result {
            texts_make_a_chain(all@, message@, causes@);
        }
    }
}

/// What is to come of taking one record to an engine: a row that is ready is applied, and is
/// reported exactly if the engine refuses it. Any other record is reported and not applied. The
/// end and the loss of the stream change nothing.
pub open spec fn taking_rule(
    fetched: Fetched,
    before: EngineState,
    after: EngineState,
    written: Seq<char>,
    result: Result<Option<bool>, FatalError>,
) -> bool {
    match fetched {
        Fetched::End => result matches Ok(None) && after == before && written.len() == 0,
        Fetched::Record { line, raw: Ok(raw) } => match record::interpreted(
            raw.kind@,
            raw.client,
            raw.tx,
            amount_column(raw),
        ) {
            Ok(instruction) => match before.apply(instruction).1 {
                Ok(()) => result matches Ok(Some(false)) && after == before.apply(instruction).0
                    && written.len() == 0,
                Err(rejection) => result matches Ok(Some(true)) && after == before.apply(
                    instruction,
                ).0 && written == report_text(
                    known_line(line),
                    Some(raw.tx),
                    rejection.message(),
                ),
            },
            Err(rejection) => result matches Ok(Some(true)) && after == before && written
                == report_text(known_line(line), Some(raw.tx), rejection.message()),
        },
        Fetched::Record { line, raw: Err(said) } => result matches Ok(Some(true)) && after == before
            && written == report_text(
            known_line(line),
            None,
            "could not be parsed as a CSV record: "@ + said@,
        ),
        Fetched::Failed { io, line, message, causes } => if io {
            result is Err && after == before && written.len() == 0
        } else {
            result matches Ok(Some(true)) && after == before && written == report_text(
                known_line(line),
                None,
                "could not be parsed as a CSV record: "@ + message@,
            )
        },
    }
}

/// One report is one line.
proof fn one_report(report: Report)
    ensures
        pipeline::report_lines(Seq::<Report>::empty().push(report)) == report_text(
            report.line,
            report.tx,
            report.message,
        ),
{
    reports_are_written_one_by_one(Seq::empty(), report);
    let text = report_text(report.line, report.tx, report.message);
    assert(Seq::<char>::empty() + text =~= text);
}

/// Taking one record to an engine comes to what it is to come to: what is written is added to
/// what was written before.
pub proof fn a_call_of_take(
    fetched: &Fetched<'_>,
    engine: &mut Engine,
    diagnostics: &mut String,
    result: Result<Option<bool>, FatalError>,
)
    requires
        call_ensures(pipeline::take, (fetched, engine, diagnostics), result),
    ensures
        ({
            let before = old(diagnostics)@;
            let after = final(diagnostics)@;
            &&& before.is_prefix_of(after)
            &&& taking_rule(
                *fetched,
                old(engine)@,
                final(engine)@,
                after.skip(before.len() as int),
                result,
            )
        }),
        fetched matches Fetched::Failed { io: true, message, causes, .. } ==> (result matches Err(
            FatalError::Read(all),
        ) && is_chain(all@, message@, causes@)),
{
    if let Fetched::Failed { io: true, line, message, causes } = *fetched {
        if let Err(FatalError::Read(all)) = result {
            texts_make_a_chain(all@, message@, causes@);
        }
    }
    let step = pipeline::step_from(old(engine)@, *fetched);
    let before = old(diagnostics)@;
    let after = final(diagnostics)@;
    assert(after.skip(before.len() as int) =~= pipeline::report_lines(step.reported));
    if let Fetched::Record { line, raw: Ok(raw) } = *fetched {
        record::a_transaction_is_well_formed(
            raw.kind@,
            raw.client,
            raw.tx,
            record::text_in(raw.amount),
        );
    }
    if step.reported.len() > 0 {
        one_report(step.reported[0]);
        assert(step.reported =~= Seq::<Report>::empty().push(step.reported[0]));
    } else {
        reports_are_written_one_by_one(Seq::empty(), Report { line: 0, tx: None, message: before });
        assert(step.reported =~= Seq::empty());
    }
}

/// A run before its first record has changed nothing. One more record is taken to where the run
/// has come, its report behind those before it, unless the stream has ended: then nothing is
/// looked at any more.
pub proof fn a_run_goes_record_by_record(
    engine: EngineState,
    fetches: Seq<Fetched>,
    fetched: Fetched,
)
    ensures
        ({
            let start = pipeline::progress(engine, Seq::empty());
            &&& start.engine == engine
            &&& start.reported.len() == 0
            &&& start.ended is None
        }),
        ({
            let before = pipeline::progress(engine, fetches);
            let after = pipeline::progress(engine, fetches.push(fetched));
            if before.ended is Some {
                after == before
            } else {
                &&& before.reported.is_prefix_of(after.reported)
                &&& after.reported.len() <= before.reported.len() + 1
                &&& taking_rule(
                    fetched,
                    before.engine,
                    after.engine,
                    pipeline::report_lines(after.reported.skip(before.reported.len() as int)),
                    match after.ended {
                        None => Ok(Some(after.reported.len() > before.reported.len())),
                        Some(Ok(())) => Ok(None),
                        Some(Err(_)) => Err(FatalError::ReaderPanicked),
                    },
                )
                &&& after.ended is None <==> !(fetched is End || fetched matches Fetched::Failed {
                    io: true,
                    ..
                })
                &&& fetched is End ==> after.ended == Some(Ok::<(), Seq<Seq<char>>>(()))
                &&& fetched matches Fetched::Failed { io: true, message, causes, .. } ==> (
                after.ended matches Some(Err(behind)) && behind.len() == causes@.len() + 1
                    && behind[0] == message@ && forall|i: int|
                    0 <= i < causes@.len() ==> #[trigger] behind[i + 1] == causes@[i]@)
            }
        }),
{
    let before = pipeline::progress(engine, fetches);
    let after = pipeline::progress(engine, fetches.push(fetched));
    assert(fetches.push(fetched).drop_last() =~= fetches);
    let more = after.reported.skip(before.reported.len() as int);
    if let Fetched::Record { line, raw: Ok(raw) } = fetched {
        record::a_transaction_is_well_formed(
            raw.kind@,
            raw.client,
            raw.tx,
            record::text_in(raw.amount),
        );
    }
    if before.ended is None {
        if after.reported.len() > before.reported.len() {
            assert(more =~= Seq::<Report>::empty().push(more[0]));
            one_report(more[0]);
        } else {
            assert(more =~= Seq::empty());
            reports_are_written_one_by_one(
                Seq::empty(),
                Report { line: 0, tx: None, message: Seq::empty() },
            );
        }
    }
}

/// A run comes to where its records lead: what is reported is written behind what was written
/// before, the result counts the reports, and losing the stream is an error.
pub proof fn a_call_of_run(
    fetches: &Vec<Fetched<'_>>,
    engine: &mut Engine,
    diagnostics: &mut String,
    result: Result<u64, FatalError>,
)
    requires
        call_ensures(pipeline::run, (fetches, engine, diagnostics), result),
    ensures
        ({
            let run = pipeline::progress(old(engine)@, fetches@);
            &&& final(engine)@ == run.engine
            &&& final(diagnostics)@ == old(diagnostics)@ + pipeline::report_lines(run.reported)
            &&& result matches Ok(rejected) ==> rejected == run.reported.len()
            &&& result is Err <==> (run.ended matches Some(Err(_)))
            &&& result matches Err(error) ==> (error matches FatalError::Read(all)
                && all@.map_values(|text: String| text@) == run.ended->0->Err_0)
        }),
{
}

/// How many shards suit a machine: one where nothing runs at once, and otherwise two fewer than
/// can run at once, but never fewer than two.
pub proof fn a_call_of_shards_for(parallelism: usize, shards: usize)
    requires
        call_ensures(parallel::shards_for, (parallelism,), shards),
    ensures
        parallelism <= 1 ==> shards == 1,
        parallelism > 1 ==> shards >= 2,
        parallelism >= 4 ==> shards + 2 == parallelism,
        1 < parallelism < 4 ==> shards == 2,
{
}

/// The command line decides on the number of shards, and otherwise the machine. A file is read
/// exactly if one is named that is not `-`.
pub proof fn what_the_command_line_asks_for(
    cli: &Cli,
    parallelism: Option<usize>,
    shards: usize,
    suited: usize,
    file: Option<&String>,
)
    requires
        call_ensures(Cli::shard_count, (cli, parallelism), shards),
        call_ensures(
            parallel::shards_for,
            (
                if parallelism is Some {
                    parallelism->0
                } else {
                    1usize
                },
            ),
            suited,
        ),
        call_ensures(Cli::file, (cli,), file),
    ensures
        cli.shards matches Some(asked) ==> shards == asked,
        cli.shards is None ==> shards == suited,
        file is Some <==> (cli.input matches Some(path) && path@ != seq!['-']),
        file matches Some(path) ==> cli.input == Some(*path),
{
    reveal_strlit("-");
    assert("-"@ =~= seq!['-']);
}

/// What came of a run: the writer's failure, else the reader's, else how much was rejected.
pub proof fn a_call_of_conclude(
    read: Result<(), FatalError>,
    written: Result<u64, FatalError>,
    result: Result<u64, FatalError>,
)
    requires
        call_ensures(parallel::conclude, (read, written), result),
    ensures
        result is Ok <==> read is Ok && written is Ok,
        result is Ok ==> result == written,
        written is Err ==> result == written,
        written is Ok && read is Err ==> result->Err_0 == read->Err_0,
{
}

/// A message to the writer says what it holds.
pub proof fn messages_say_what_they_hold(out: Out)
    ensures
        match out {
            Out::Row(row) => out@ == Notice::Row(row@),
            Out::Rejected { line, tx, message } => out@ matches Notice::Rejected(report)
                && report.line == line && report.tx == tx && report.message == message@,
        },
{
}

/// The writer writes a row to standard output, column by column as it is, and a rejected record
/// to standard error, and counts the latter.
pub proof fn a_call_of_write(writer: &mut Writer, out: &Out, written: Output)
    requires
        call_ensures(Writer::write, (writer, out), written),
        *out matches Out::Row(row) ==> row.available@.scale <= 4 && row.held@.scale <= 4
            && row.total@.scale <= 4,
    ensures
        match *out {
            Out::Row(row) => written matches Output::Stdout(text) && output::is_line_of(
                text@,
                row@,
            ) && final(writer).count() == old(writer).count(),
            Out::Rejected { line, tx, message } => written matches Output::Stderr(text) && text@
                == report_text(line, tx, message@) && final(writer).count() == old(writer).count()
                + 1,
        },
{
    if let Out::Row(row) = *out {
        output::a_row_is_written_as_it_is(row@);
    }
    if let Out::Rejected { line, tx, message } = *out {
        a_report_is_written_as_it_is(Report { line, tx, message: message@ });
    }
}

/// A new writer has counted nothing. It says how much it has counted, and sums it up exactly if
/// there is anything.
pub proof fn a_writer_counts(
    new: Writer,
    writer: &Writer,
    rejected: u64,
    header: String,
    summary: Option<String>,
)
    requires
        call_ensures(Writer::new, (), new),
        call_ensures(Writer::rejected, (writer,), rejected),
        call_ensures(Writer::header, (writer,), header),
        call_ensures(Writer::summary, (writer,), summary),
    ensures
        new.count() == 0,
        rejected == writer.count(),
        header@ == output::header_line(),
        summary is Some <==> rejected > 0,
        summary matches Some(text) ==> text@ == digits::digits(rejected as nat)
            + " record(s) rejected\n"@,
{
}

/// An entry says what it holds, and so do a list of entries and a batch of them.
pub proof fn entries_say_what_they_hold(entries: Seq<Entry>, parcels: Seq<Parcel>)
    ensures
        pipeline::tickets(entries).len() == entries.len(),
        forall|i: int|
            0 <= i < entries.len() ==> {
                let ticket = #[trigger] pipeline::tickets(entries)[i];
                ticket.line == entries[i].line && ticket.instruction == entries[i].transaction@
            },
        dispatch::loads(parcels).len() == parcels.len(),
        forall|i: int|
            0 <= i < parcels.len() ==> {
                let load = #[trigger] dispatch::loads(parcels)[i];
                load.shard == parcels[i].shard && load.entries == pipeline::tickets(
                    parcels[i].entries@,
                )
            },
{
}

/// What is to come of taking in what the stream gives: a row that is ready is staged for its
/// shard. Any other record goes to the writer at once. Nothing more is read at the end and once
/// the stream is lost.
pub open spec fn intake_rule(
    fetched: Fetched,
    before: Pending,
    after: Pending,
    taken: Taken,
) -> bool {
    let idle = after == before && taken.parcels@.len() == 0;
    match fetched {
        Fetched::End => idle && taken.notice is None && taken.finished,
        Fetched::Record { line, raw: Ok(raw) } => match record::interpreted(
            raw.kind@,
            raw.client,
            raw.tx,
            amount_column(raw),
        ) {
            Ok(instruction) => (after, dispatch::loads(taken.parcels@)) == before.stage(
                Ticket { line: known_line(line), instruction },
            ) && taken.notice is None && !taken.finished,
            Err(rejection) => idle && !taken.finished && (taken.notice matches Some(
                Out::Rejected { line: its_line, tx, message },
            ) && its_line == known_line(line) && tx == Some(raw.tx) && message@
                == rejection.message()),
        },
        Fetched::Record { line, raw: Err(said) } => idle && !taken.finished && (
        taken.notice matches Some(Out::Rejected { line: its_line, tx, message }) && its_line
            == known_line(line) && tx is None && message@
            == "could not be parsed as a CSV record: "@ + said@),
        Fetched::Failed { io, line, message: said, causes } => if io {
            idle && taken.notice is None && taken.finished
        } else {
            idle && !taken.finished && (taken.notice matches Some(
                Out::Rejected { line: its_line, tx, message },
            ) && its_line == known_line(line) && tx is None && message@
                == "could not be parsed as a CSV record: "@ + said@)
        },
    }
}

/// Taking in what the stream gives comes to what it is to come to.
pub proof fn a_call_of_intake(intake: &mut Intake, fetched: &Fetched<'_>, taken: Taken)
    requires
        call_ensures(Intake::take, (intake, fetched), taken),
    ensures
        intake_rule(*fetched, old(intake).pending(), final(intake).pending(), taken),
        match *fetched {
            Fetched::Failed { io: true, message, causes, .. } => {
                final(intake).fatal() matches Some(FatalError::Read(all)) && is_chain(
                    all@,
                    message@,
                    causes@,
                )
            },
            _ => final(intake).fatal() == old(intake).fatal(),
        },
{
    if let Fetched::Failed { io: true, line, message, causes } = *fetched {
        if let Some(FatalError::Read(all)) = final(intake).fatal() {
            texts_make_a_chain(all@, message@, causes@);
        }
    }
    let step = parallel::taken_in(old(intake).pending(), *fetched);
    let listed = parallel::notices_in(taken.notice);
    assert(dispatch::loads(taken.parcels@).len() == taken.parcels@.len());
    assert(listed == parallel::as_rejections(step.noted));
    if let Fetched::Record { line, raw: Ok(raw) } = *fetched {
        record::a_transaction_is_well_formed(
            raw.kind@,
            raw.client,
            raw.tx,
            record::text_in(raw.amount),
        );
    }
    if step.noted.len() == 0 {
        assert(listed.len() == 0);
    } else {
        assert(listed.len() == 1);
        assert(listed[0] == Notice::Rejected(step.noted[0]));
        if let Some(out) = taken.notice {
            assert(listed[0] == out@);
            messages_say_what_they_hold(out);
        }
    }
}

/// Running instructions one more at a time is applying them in turn.
pub proof fn instructions_run_one_by_one(
    engine: EngineState,
    instructions: Seq<Instruction>,
    instruction: Instruction,
)
    ensures
        sharding_laws::run(engine, Seq::empty()) == engine,
        sharding_laws::run(engine, instructions.push(instruction)) == sharding_laws::run(
            engine,
            instructions,
        ).apply(instruction).0,
{
    assert(instructions.push(instruction).drop_last() =~= instructions);
}

/// What an engine refuses is reported record by record, with the line, the ID and the reason.
pub proof fn refusals_are_reported_one_by_one(
    engine: EngineState,
    tickets: Seq<Ticket>,
    ticket: Ticket,
)
    ensures
        parallel::refusals(engine, Seq::empty()).len() == 0,
        ({
            let before = parallel::refusals(engine, tickets);
            let after = parallel::refusals(engine, tickets.push(ticket));
            match sharding_laws::run(engine, parallel::instructions(tickets)).apply(
                ticket.instruction,
            ).1 {
                Ok(()) => after == before,
                Err(rejection) => after == before.push(
                    Report {
                        line: ticket.line,
                        tx: Some(ticket.instruction.tx()),
                        message: rejection.message(),
                    },
                ),
            }
        }),
{
    let before = parallel::refusals(engine, tickets);
    assert(tickets.push(ticket).drop_last() =~= tickets);
    assert(before + Seq::empty() =~= before);
    assert forall|report: Report| #[trigger] before.push(report) == before + seq![report] by {
        assert(before.push(report) =~= before + seq![report]);
    }
}

/// A new shard knows nobody. A batch makes of a shard what applying its records in turn makes of
/// an engine: the writer is told every refusal and the row of every account that was frozen,
/// and nothing else, and those rows are then no longer owed.
pub proof fn a_call_of_a_shard(
    shards: usize,
    withdrawals: bool,
    new: Shard,
    shard: &mut Shard,
    entries: &Vec<Entry>,
    outs: Vec<Out>,
)
    requires
        call_ensures(Shard::new, (shards, withdrawals), new),
        call_ensures(Shard::apply, (shard, entries), outs),
    ensures
        new@ == EngineState::empty(withdrawals),
        ({
            let tickets = pipeline::tickets(entries@);
            let end = sharding_laws::run(old(shard)@, parallel::instructions(tickets));
            let told = parallel::notices(outs@);
            &&& parallel_laws::rows_in(told) == end.evicted
            &&& parallel_laws::rejections_in(told) == parallel::refusals(old(shard)@, tickets)
            &&& forall|i: int, j: int|
                0 <= i < j < told.len() && (#[trigger] told[j]) is Rejected ==> (
                #[trigger] told[i]) is Rejected
            &&& final(shard)@.accounts == end.accounts
            &&& final(shard)@.frozen == end.frozen
            &&& final(shard)@.evicted.len() == 0
            &&& final(shard)@.disputable_withdrawals == end.disputable_withdrawals
        }),
        parallel::notices(outs@).len() == outs@.len(),
        forall|i: int|
            0 <= i < outs@.len() ==> #[trigger] parallel::notices(outs@)[i] == outs@[i]@,
{
    let tickets = pipeline::tickets(entries@);
    let end = sharding_laws::run(old(shard)@, parallel::instructions(tickets));
    let refused = parallel::refusals(old(shard)@, tickets);
    parallel_laws::rejections_and_then_rows(refused, end.evicted);
}

/// A shard that is shut down tells the writer every row that it still owes, and nothing else,
/// and is left without accounts.
pub proof fn a_call_of_finish(shard: &mut Shard, outs: Vec<Out>)
    requires
        call_ensures(Shard::finish, (shard,), outs),
    ensures
        parallel_laws::rows_in(parallel::notices(outs@)) == old(shard)@.reported(),
        parallel_laws::rejections_in(parallel::notices(outs@)).len() == 0,
        forall|client: u16| !final(shard)@.accounts.contains_key(client),
        final(shard)@.evicted.len() == 0,
        final(shard)@.frozen == old(shard)@.frozen,
{
    let rows = old(shard)@.reported();
    parallel_laws::rejections_and_then_rows(Seq::empty(), rows);
    assert(parallel::as_rejections(Seq::empty()) + parallel::as_notices(rows)
        =~= parallel::as_notices(rows));
}

/// A seeded router gives a client the shard in whose part of the range its hash lies. The client
/// with a given hash is found by undoing the mixer.
pub proof fn a_seeded_router_cuts_the_range(
    shards: usize,
    seed: u32,
    router: Router,
    count: usize,
    client: u16,
    hash: u32,
    shard: usize,
)
    requires
        call_ensures(Router::with_seed, (shards, seed), router),
        call_ensures(Router::shards, (&router,), count),
        call_ensures(Router::shard, (&router, client), shard),
        0 < shards <= u32::MAX,
        client as u32 == route::unmixed(hash, seed),
    ensures
        count == shards,
        shard < shards,
        shard * 0x1_0000_0000 <= hash * shards < (shard + 1) * 0x1_0000_0000,
{
    route::mixing_is_one_to_one(client as u32, client as u32, hash, seed);
    route::reduction_is_uniform(hash, shards as u32);
    assert(shard * 0x1_0000_0000 == shard as int * 0x1_0000_0000);
}

/// Routing a whole chunk gives each of its clients the shard that it has on its own.
pub proof fn a_chunk_is_routed_client_by_client(router: &Router, client: u16, shard: usize)
    requires
        call_ensures(Router::shard, (router, client), shard),
        router.shard_count() > 0,
    ensures
        router.shard_of(client as u32) == shard,
        forall|hash: u32|
            #![trigger route::unmixed(hash, router.seed())]
            ({
                let owner = router.shard_of(route::unmixed(hash, router.seed()));
                owner * 0x1_0000_0000 <= hash * router.shard_count() < (owner + 1) * 0x1_0000_0000
            }),
{
    assert forall|hash: u32|
        #![trigger route::unmixed(hash, router.seed())]
        ({
            let owner = router.shard_of(route::unmixed(hash, router.seed()));
            owner * 0x1_0000_0000 <= hash * router.shard_count() < (owner + 1) * 0x1_0000_0000
        }) by {
        route::mixing_is_one_to_one(0, 0, hash, router.seed());
        route::reduction_is_uniform(hash, router.shard_count());
        let owner = router.shard_of(route::unmixed(hash, router.seed()));
        assert(owner * 0x1_0000_0000 == owner * 0x1_0000_0000);
    }
}

/// Decimals are added and subtracted exactly wherever the result can be represented.
pub proof fn a_call_of_checked_add(
    a: Decimal,
    b: Decimal,
    total: Option<Decimal>,
    rest: Option<Decimal>,
    saturated: Decimal,
)
    requires
        a@.fits(),
        b@.fits(),
        call_ensures(Decimal::checked_add, (a, b), total),
        call_ensures(Decimal::checked_sub, (a, b), rest),
        call_ensures(Decimal::saturating_add, (a, b), saturated),
    ensures
        total matches Some(total) ==> saturated@ == total@,
        total is None && a@.mantissa >= 0 ==> saturated@.value() == decimal::MAX_MANTISSA
            * decimal::ten_to(28),
        total is None && a@.mantissa < 0 ==> saturated@.value() == -decimal::MAX_MANTISSA
            * decimal::ten_to(28),
        decimal::representable(a@.value() + b@.value()) ==> total is Some && total->0@.value()
            == a@.value() + b@.value(),
        decimal::representable(a@.value() - b@.value()) ==> rest is Some && rest->0@.value()
            == a@.value() - b@.value(),
{
    decimal::exact_sums_add_up(a@, b@, decimal::MAX_SCALE as nat);
    decimal::exact_differences_add_up(a@, b@, decimal::MAX_SCALE as nat);
    decimal::only_the_unrepresentable_is_refused(decimal::exact_sum(a@, b@));
    decimal::only_the_unrepresentable_is_refused(decimal::exact_difference(a@, b@));
    decimal::rounding_is_the_only_loss(decimal::exact_sum(a@, b@));
    decimal::rounding_is_the_only_loss(decimal::exact_difference(a@, b@));
}

/// A decimal shows its digits and its scale, and is compared by its value.
pub proof fn a_decimal_shows_what_it_holds(
    a: Decimal,
    b: Decimal,
    zero: Decimal,
    mantissa: i128,
    scale: u32,
    negative: bool,
    less: bool,
    made: Option<Decimal>,
)
    requires
        call_ensures(Decimal::zero, (), zero),
        call_ensures(Decimal::mantissa, (a,), mantissa),
        call_ensures(Decimal::scale, (a,), scale),
        call_ensures(Decimal::is_sign_negative, (a,), negative),
        call_ensures(Decimal::less_than, (a, b), less),
        call_ensures(Decimal::from_parts, (mantissa, scale), made),
    ensures
        zero@ == (Number { mantissa: 0, scale: 0 }),
        mantissa == a@.mantissa,
        scale == a@.scale,
        negative <==> mantissa < 0,
        less <==> a@.value() < b@.value(),
        a@.fits() ==> (made matches Some(same) && same@ == a@),
{
}

/// A decimal that is written out is read back as the same decimal.
pub proof fn a_written_decimal_is_read_back(
    value: &Decimal,
    text: String,
    same: &str,
    read: Option<Decimal>,
)
    requires
        value@.fits(),
        call_ensures(Decimal::to_string, (value,), text),
        same@ == text@,
        call_ensures(Decimal::from_str_exact, (same,), read),
    ensures
        read matches Some(read) && read@ == value@,
{
    decimal::a_written_number_reads_back(value@);
}

/// Digits, with a point among them or not, denote the number that they spell, with as many
/// decimal places as follow the point.
pub proof fn a_plain_number_is_read_as_it_is_written(
    whole: Seq<char>,
    fraction: Seq<char>,
    text: &str,
    read: Option<Decimal>,
)
    requires
        digits::all_digits(whole),
        digits::all_digits(fraction),
        whole.len() > 0,
        0 < fraction.len() <= 28,
        digits::digits_value(whole + fraction) <= decimal::MAX_MANTISSA,
        text@ == whole + seq!['.'] + fraction,
        call_ensures(Decimal::from_str_exact, (text,), read),
    ensures
        read matches Some(read) && read@ == (Number {
            mantissa: digits::digits_value(whole + fraction) as int,
            scale: fraction.len(),
        }),
{
    assert(digits::is_digit(whole[0]));
    assert(text@[0] == whole[0]);
    assert forall|i: int| 0 <= i < text@.len() implies #[trigger] text@[i] != '_' by {
        if i < whole.len() {
            assert(digits::is_digit(whole[i]));
        } else if i > whole.len() {
            assert(digits::is_digit(fraction[i - whole.len() - 1]));
        }
    }
    decimal::nothing_to_separate(text@);
    decimal::the_point_follows_the_digits(whole, fraction);
    assert forall|i: int| 0 <= i < (whole + fraction).len() implies digits::is_digit(
        #[trigger] (whole + fraction)[i],
    ) by {
        if i < whole.len() {
            assert(digits::is_digit(whole[i]));
        } else {
            assert(digits::is_digit(fraction[i - whole.len()]));
        }
    }
}

/// A new reading end has nothing pending and nothing that went wrong. What is said to have gone
/// wrong is what the reading comes to, and closing hands over everything and changes nothing of
/// that.
pub proof fn a_reading_end_is_closed(
    router: Router,
    new: Intake,
    closed: &mut Intake,
    parcels: Vec<Parcel>,
    failed: &mut Intake,
    error: FatalError,
    ended: Intake,
    result: Result<(), FatalError>,
)
    requires
        call_ensures(Intake::new, (router,), new),
        call_ensures(Intake::close, (closed,), parcels),
        call_ensures(Intake::fail, (failed, error), ()),
        call_ensures(Intake::outcome, (ended,), result),
    ensures
        new.fatal() is None,
        new.pending().router == router,
        new.pending().staged.len() == 0,
        forall|shard: int|
            0 <= shard < router.shard_count() ==> (#[trigger] new.pending().batches[shard]).len()
                == 0,
        dispatch::loads(parcels@) == old(closed).pending().close(),
        final(closed).fatal() == old(closed).fatal(),
        final(failed).fatal() == Some(error),
        final(failed).pending() == old(failed).pending(),
        result is Ok <==> ended.fatal() is None,
        result matches Err(error) ==> ended.fatal() == Some(error),
{
}

/// A chunk of clients is routed one by one: each slot gets the shard that its client has on its
/// own, and a slot without a client is left as it was.
pub proof fn a_call_of_route_into(
    router: &Router,
    clients: &[u32],
    out: &mut [u32],
    client: u16,
    shard: usize,
    i: int,
)
    requires
        call_ensures(Router::route_into, (router, clients, out), ()),
        call_ensures(Router::shard, (router, client), shard),
    ensures
        final(out)@.len() == old(out)@.len(),
        0 <= i < clients@.len() && i < old(out)@.len() && clients@[i] == client as u32
            ==> final(out)@[i] == shard,
        clients@.len() <= i < old(out)@.len() ==> final(out)@[i] == old(out)@[i],
{
}

/// A fresh router has as many shards as were asked for. A seed is made of the high half of a
/// hash.
pub proof fn a_fresh_router(shards: usize, router: Router, hash: u64, seed: u32)
    requires
        0 < shards <= u32::MAX,
        call_ensures(Router::new, (shards,), router),
        call_ensures(Router::seed_from, (hash,), seed),
    ensures
        router.shard_count() == shards,
        seed * 0x1_0000_0000 <= hash < (seed + 1) * 0x1_0000_0000,
{
}

/// Decimals are ordered by their values, and so are amounts.
pub proof fn a_call_of_order(
    a: &Decimal,
    b: &Decimal,
    order: Option<Ordering>,
    amount: &Amount,
    other: &Amount,
    its_order: Option<Ordering>,
)
    requires
        call_ensures(Decimal::partial_cmp, (a, b), order),
        call_ensures(Amount::partial_cmp, (amount, other), its_order),
    ensures
        its_order == Some(Ordering::Less) <==> amount@.value() < other@.value(),
        its_order == Some(Ordering::Equal) <==> amount@.value() == other@.value(),
        its_order == Some(Ordering::Greater) <==> amount@.value() > other@.value(),
        order == Some(Ordering::Less) <==> a@.value() < b@.value(),
        order == Some(Ordering::Equal) <==> a@.value() == b@.value(),
        order == Some(Ordering::Greater) <==> a@.value() > b@.value(),
{
}

} // verus!
