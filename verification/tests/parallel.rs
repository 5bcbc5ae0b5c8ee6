use transaction_solver::dispatch::{Dispatcher, BATCH, CHUNK};
use transaction_solver::parallel::{
    conclude, shards_for, Intake, Out, Output, Shard, Writer, QUEUE,
};
use transaction_solver::pipeline::{run, Entry, Fetched};
use transaction_solver::record::RawRecord;
use transaction_solver::{Engine, FatalError, Router, Transaction};

#[test]
fn two_threads_are_reserved_above_the_floor() {
    assert_eq!(shards_for(8), 6);
    assert_eq!(shards_for(16), 14);
}

#[test]
fn small_machines_keep_at_least_two_shards() {
    assert_eq!(shards_for(2), 2);
    assert_eq!(shards_for(3), 2);
    assert_eq!(shards_for(4), 2);
}

#[test]
fn a_single_core_turns_sharding_off() {
    assert_eq!(shards_for(1), 1);
    assert_eq!(shards_for(0), 1);
}

/// One row of a sample: type, client, transaction, amount.
type Sample = (&'static str, u16, u32, Option<&'static str>);

fn fetches(rows: &[Sample]) -> Vec<Fetched<'static>> {
    let mut all: Vec<Fetched<'static>> = Vec::new();
    for (index, row) in rows.iter().enumerate() {
        all.push(Fetched::Record {
            line: Some(index as u64 + 2),
            raw: Ok(RawRecord {
                kind: row.0,
                client: row.1,
                tx: row.2,
                amount: row.3,
            }),
        });
    }
    all.push(Fetched::End);
    all
}

/// What a run writes: standard output, standard error, and the outcome.
struct Written {
    stdout: Vec<String>,
    stderr: Vec<String>,
    result: Result<u64, FatalError>,
}

/// Runs the stages one after the other, as many shards as asked for.
fn pipeline(fetches: &[Fetched<'static>], shards: usize, withdrawals: bool) -> Written {
    let mut intake = Intake::new(Router::with_seed(shards, 0x1234_5678));
    let mut engines: Vec<Shard> = (0..shards)
        .map(|_| Shard::new(shards, withdrawals))
        .collect();
    let mut queue: Vec<Out> = Vec::new();
    for fetched in fetches {
        let taken = intake.take(fetched);
        for parcel in &taken.parcels {
            queue.extend(engines[parcel.shard].apply(&parcel.entries));
        }
        queue.extend(taken.notice);
        if taken.finished {
            break;
        }
    }
    for parcel in &intake.close() {
        queue.extend(engines[parcel.shard].apply(&parcel.entries));
    }
    for engine in &mut engines {
        queue.extend(engine.finish());
    }

    let mut writer = Writer::new();
    let mut stdout = vec![writer.header()];
    let mut stderr: Vec<String> = Vec::new();
    for out in &queue {
        match writer.write(out) {
            Output::Stdout(line) => stdout.push(line),
            Output::Stderr(text) => stderr.push(text),
        }
    }
    stderr.extend(writer.summary());
    Written {
        stdout,
        stderr,
        result: conclude(intake.outcome(), Ok(writer.rejected())),
    }
}

fn sorted(mut lines: Vec<String>) -> Vec<String> {
    lines.sort();
    lines
}

const LIFECYCLE: [Sample; 14] = [
    ("deposit", 1, 1, Some("5.0")),
    ("deposit", 2, 2, Some("3.25")),
    ("deposit", 1, 3, Some("1.5")),
    ("dispute", 1, 1, None),
    ("withdrawal", 2, 4, Some("9.0")),
    ("dispute", 1, 3, None),
    ("chargeback", 1, 1, None),
    ("deposit", 1, 5, Some("1.0")),
    ("resolve", 2, 2, None),
    ("dispute", 2, 1, None),
    ("withdrawal", 3, 6, Some("1.0")),
    ("dispute", 4, 6, None),
    ("transfer", 5, 7, Some("1.0")),
    ("Deposit", 6, 8, Some("0.0001")),
];

#[test]
fn the_stages_write_rows_and_diagnostics() {
    let written = pipeline(&fetches(&LIFECYCLE), 1, false);
    assert_eq!(
        written.stdout,
        vec![
            "client,available,held,total,locked\n",
            "1,0.0000,1.5000,1.5000,true\n",
            "2,3.2500,0.0000,3.2500,false\n",
            "3,0.0000,0.0000,0.0000,false\n",
            "6,0.0001,0.0000,0.0001,false\n",
        ]
    );
    assert_eq!(
        sorted(written.stderr),
        vec![
            "7 record(s) rejected\n",
            "line 10: rejected, transaction 2 of client 2 is not under dispute (tx 2)\n",
            "line 11: rejected, client 2 has no disputable transaction 1 (tx 1)\n",
            "line 12: rejected, client 3 has 0 available, cannot withdraw 1.0 (tx 6)\n",
            "line 13: rejected, client 4 has no disputable transaction 6 (tx 6)\n",
            "line 14: rejected, unrecognised transaction type `transfer` (tx 7)\n",
            "line 6: rejected, client 2 has 3.25 available, cannot withdraw 9.0 (tx 4)\n",
            "line 9: rejected, client 1 is locked (tx 5)\n",
        ]
    );
    assert_eq!(written.result.unwrap(), 7);
}

/// The property that makes sharding legitimate: how the clients are split cannot change the
/// answer.
#[test]
fn the_number_of_shards_never_changes_the_answer() {
    let mut rows: Vec<Sample> = Vec::new();
    for round in 0..60u32 {
        for client in 0..200u16 {
            let tx = round * 1000 + u32::from(client);
            rows.push(match (round + u32::from(client)) % 7 {
                0 | 1 => ("deposit", client, tx, Some("10.5")),
                2 => ("withdrawal", client, tx, Some("3.25")),
                3 => ("dispute", client, tx.wrapping_sub(3000), None),
                4 => ("resolve", client, tx.wrapping_sub(4000), None),
                5 => ("dispute", client, tx.wrapping_sub(4000), None),
                _ if client % 3 > 0 => ("resolve", client, tx.wrapping_sub(5000), None),
                _ => ("chargeback", client, tx.wrapping_sub(5000), None),
            });
        }
    }
    let all = fetches(&rows);
    for withdrawals in [false, true] {
        let single = pipeline(&all, 1, withdrawals);
        let expected = sorted(single.stdout);
        let reported = sorted(single.stderr);
        assert!(expected.iter().any(|line| line.ends_with("true\n")));
        assert!(expected.iter().any(|line| line.ends_with("false\n")));
        for shards in [2, 3, 7, 16] {
            let written = pipeline(&all, shards, withdrawals);
            assert_eq!(sorted(written.stdout), expected, "{shards} shards");
            assert_eq!(sorted(written.stderr), reported, "{shards} shards");
        }
    }
}

#[test]
fn the_stages_agree_with_the_single_engine() {
    let all = fetches(&LIFECYCLE);
    let mut engine = Engine::new();
    let mut diagnostics = String::new();
    let rejected = run(&all, &mut engine, &mut diagnostics).unwrap();
    let written = pipeline(&all, 3, false);
    assert_eq!(written.result.unwrap(), rejected);
    let mut lines: Vec<String> = diagnostics.lines().map(|line| format!("{line}\n")).collect();
    lines.push("7 record(s) rejected\n".to_string());
    assert_eq!(sorted(written.stderr), sorted(lines));
}

/// Every client is reported exactly once, whether its account froze mid-run and was evicted or
/// survived to the drain at the end.
#[test]
fn a_frozen_client_is_reported_once_and_only_once() {
    let written = pipeline(&fetches(&LIFECYCLE), 4, false);
    let rows = &written.stdout[1..];
    let mut clients: Vec<&str> = rows
        .iter()
        .map(|row| row.split(',').next().unwrap_or_default())
        .collect();
    let before = clients.len();
    clients.sort_unstable();
    clients.dedup();
    assert_eq!(before, clients.len(), "a client was written twice: {rows:?}");
    assert!(rows.iter().any(|row| row.ends_with(",true\n")));
    for row in &written.stdout {
        assert_eq!(row.split(',').count(), 5);
    }
}

fn dispute(line: u64, client: u16) -> Entry {
    Entry {
        line,
        transaction: Transaction::Dispute { client, tx: 1 },
    }
}

#[test]
fn batches_leave_when_a_full_chunk_has_filled_them() {
    let mut dispatcher = Dispatcher::new(Router::with_seed(1, 0));
    for line in 0..(CHUNK as u64 - 1) {
        assert!(dispatcher.stage(dispute(line, 1)).is_empty());
    }
    let parcels = dispatcher.stage(dispute(CHUNK as u64 - 1, 1));
    assert_eq!(parcels.len(), CHUNK / BATCH);
    let lines: Vec<u64> = parcels
        .iter()
        .flat_map(|parcel| parcel.entries.iter().map(|entry| entry.line))
        .collect();
    assert_eq!(lines, (0..CHUNK as u64).collect::<Vec<u64>>());
    for parcel in &parcels {
        assert_eq!(parcel.shard, 0);
        assert_eq!(parcel.entries.len(), BATCH);
    }
    assert!(dispatcher.close().is_empty());
    assert_eq!(QUEUE, 16);
}

#[test]
fn every_shard_gets_its_own_in_order() {
    let router = Router::with_seed(5, 42);
    let mut dispatcher = Dispatcher::new(router);
    let mut received: Vec<Vec<u64>> = vec![Vec::new(); 5];
    let total = 3 * CHUNK as u64 + 17;
    let client_of = |line: u64| (line * 31 % 977) as u16;
    let mut parcels = Vec::new();
    for line in 0..total {
        parcels.extend(dispatcher.stage(dispute(line, client_of(line))));
    }
    for parcel in &parcels {
        assert_eq!(parcel.entries.len(), BATCH);
    }
    let last = dispatcher.close();
    let shards: Vec<usize> = last.iter().map(|parcel| parcel.shard).collect();
    assert_eq!(shards[shards.len() - 5..], [0, 1, 2, 3, 4]);
    parcels.extend(last);
    for parcel in &parcels {
        for entry in &parcel.entries {
            assert_eq!(router.shard(entry.transaction.client()), parcel.shard);
            received[parcel.shard].push(entry.line);
        }
    }
    for (shard, lines) in received.iter().enumerate() {
        let expected: Vec<u64> = (0..total)
            .filter(|line| router.shard(client_of(*line)) == shard)
            .collect();
        assert_eq!(*lines, expected);
    }
    assert!(dispatcher.close().is_empty());
}

#[test]
fn the_reader_stops_at_the_end_and_when_the_stream_is_lost() {
    let mut intake = Intake::new(Router::with_seed(2, 0));
    assert!(intake.take(&Fetched::End).finished);
    let lost = Fetched::Failed {
        io: true,
        line: None,
        message: "gone".to_string(),
        causes: vec![],
    };
    let taken = intake.take(&lost);
    assert!(taken.finished);
    assert!(taken.parcels.is_empty());
    assert!(taken.notice.is_none());
    assert!(intake.close().is_empty());
    match intake.outcome() {
        Err(FatalError::Read(causes)) => assert_eq!(causes, vec!["gone"]),
        other => panic!("{other:?}"),
    }
    assert!(Intake::new(Router::with_seed(2, 0)).outcome().is_ok());
}

#[test]
fn a_stream_that_cannot_be_opened_still_shuts_down() {
    let mut intake = Intake::new(Router::with_seed(2, 0));
    intake.fail(FatalError::Read(vec!["no header".to_string()]));
    assert!(intake.close().is_empty());
    assert!(matches!(intake.outcome(), Err(FatalError::Read(_))));
}

#[test]
fn a_rejected_row_goes_straight_to_the_writer() {
    let mut intake = Intake::new(Router::with_seed(2, 0));
    let taken = intake.take(&Fetched::Failed {
        io: false,
        line: Some(3),
        message: "not text".to_string(),
        causes: vec![],
    });
    assert!(!taken.finished);
    match taken.notice {
        Some(Out::Rejected { line, tx, message }) => {
            assert_eq!(line, 3);
            assert_eq!(tx, None);
            assert_eq!(message, "could not be parsed as a CSV record: not text");
        }
        other => panic!("{other:?}"),
    }
}

#[test]
fn the_writers_failure_comes_first() {
    assert!(matches!(
        conclude(
            Err(FatalError::ReaderPanicked),
            Err(FatalError::Write(vec![]))
        ),
        Err(FatalError::Write(_))
    ));
    assert!(matches!(
        conclude(Err(FatalError::ReaderPanicked), Ok(3)),
        Err(FatalError::ReaderPanicked)
    ));
    assert!(matches!(conclude(Ok(()), Ok(3)), Ok(3)));
}

#[test]
fn nothing_is_summed_up_without_rejections() {
    let writer = Writer::new();
    assert!(writer.summary().is_none());
    assert_eq!(writer.rejected(), 0);
}

/// The messages to the writer, as they are written.
fn written(outs: Vec<Out>) -> Vec<String> {
    let mut writer = Writer::new();
    outs.iter()
        .map(|out| match writer.write(out) {
            Output::Stdout(line) => line,
            Output::Stderr(text) => text,
        })
        .collect()
}

#[test]
fn batches_make_no_difference_to_a_shard() {
    let mut entries: Vec<Entry> = Vec::new();
    for (index, row) in LIFECYCLE.iter().enumerate() {
        let raw = RawRecord {
            kind: row.0,
            client: row.1,
            tx: row.2,
            amount: row.3,
        };
        if let Ok(transaction) = Transaction::from_raw(&raw) {
            entries.push(Entry {
                line: index as u64,
                transaction,
            });
        }
    }
    let mut whole = Shard::new(1, false);
    let mut expected = written(whole.apply(&entries));
    expected.extend(written(whole.finish()));
    for size in 1..entries.len() {
        let mut shard = Shard::new(1, false);
        let mut lines: Vec<String> = Vec::new();
        for batch in entries.chunks(size) {
            lines.extend(written(shard.apply(&batch.to_vec())));
        }
        lines.extend(written(shard.finish()));
        assert_eq!(sorted(lines), sorted(expected.clone()), "batches of {size}");
    }
}

#[test]
fn a_shard_reports_refusals_before_the_rows_it_evicts() {
    let mut shard = Shard::new(3, false);
    let amount = transaction_solver::Amount::parse("5").unwrap();
    let steps = [
        Transaction::Deposit { client: 1, tx: 1, amount },
        Transaction::Dispute { client: 1, tx: 1 },
        Transaction::Chargeback { client: 1, tx: 1 },
        Transaction::Deposit { client: 1, tx: 2, amount },
    ];
    let entries: Vec<Entry> = steps
        .iter()
        .enumerate()
        .map(|(index, transaction)| Entry {
            line: index as u64 + 2,
            transaction: *transaction,
        })
        .collect();
    assert_eq!(
        written(shard.apply(&entries)),
        vec![
            "line 5: rejected, client 1 is locked (tx 2)\n",
            "1,0.0000,0.0000,0.0000,true\n",
        ]
    );
    assert!(shard.finish().is_empty());
}
