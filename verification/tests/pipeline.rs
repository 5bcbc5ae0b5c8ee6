use std::fmt;
use std::io::Read;
use std::str::FromStr;

use serde::de::{Deserialize, Deserializer, Error, IgnoredAny, MapAccess, Visitor};
use transaction_solver::decimal::Decimal;
use transaction_solver::pipeline::{next, report, run, take, Fetched, Reading};
use transaction_solver::record::RawRecord;
use transaction_solver::{Engine, FatalError, RecordError, Transaction};

/// A row of the input, found by the names of its columns.
struct Row<'a>(RawRecord<'a>);

struct RowVisitor;

impl<'de> Visitor<'de> for RowVisitor {
    type Value = Row<'de>;

    fn expecting(&self, formatter: &mut fmt::Formatter<'_>) -> fmt::Result {
        formatter.write_str("a row")
    }

    fn visit_map<M: MapAccess<'de>>(self, mut map: M) -> Result<Row<'de>, M::Error> {
        let mut kind: Option<&'de str> = None;
        let mut client: Option<u16> = None;
        let mut tx: Option<u32> = None;
        let mut amount: Option<&'de str> = None;
        while let Some(column) = map.next_key::<&'de str>()? {
            match column {
                "type" => kind = Some(map.next_value()?),
                "client" => client = Some(map.next_value()?),
                "tx" => tx = Some(map.next_value()?),
                "amount" => amount = map.next_value()?,
                _ => {
                    map.next_value::<IgnoredAny>()?;
                }
            }
        }
        Ok(Row(RawRecord {
            kind: kind.ok_or_else(|| M::Error::missing_field("type"))?,
            client: client.ok_or_else(|| M::Error::missing_field("client"))?,
            tx: tx.ok_or_else(|| M::Error::missing_field("tx"))?,
            amount,
        }))
    }
}

impl<'de> Deserialize<'de> for Row<'de> {
    fn deserialize<D: Deserializer<'de>>(deserializer: D) -> Result<Row<'de>, D::Error> {
        deserializer.deserialize_struct("Row", &["type", "client", "tx", "amount"], RowVisitor)
    }
}

struct Outcome {
    engine: Engine,
    result: Result<u64, FatalError>,
    diagnostics: String,
}

/// Reads a whole stream as CSV and runs it.
fn process_stream<R: Read>(input: R) -> Outcome {
    let mut reader = csv::ReaderBuilder::new()
        .trim(csv::Trim::All)
        .flexible(true)
        .from_reader(input);
    let headers = reader.headers().expect("a header").clone();

    let mut records: Vec<Result<csv::StringRecord, csv::Error>> = Vec::new();
    loop {
        let mut record = csv::StringRecord::new();
        match reader.read_record(&mut record) {
            Ok(true) => records.push(Ok(record)),
            Ok(false) => break,
            Err(error) => {
                let lost = error.is_io_error();
                records.push(Err(error));
                if lost {
                    break;
                }
            }
        }
    }

    let mut fetches: Vec<Fetched<'_>> = Vec::new();
    for record in &records {
        fetches.push(match record {
            Ok(record) => Fetched::Record {
                line: record.position().map(|position| position.line()),
                raw: record
                    .deserialize::<Row<'_>>(Some(&headers))
                    .map(|row| row.0)
                    .map_err(|error| error.to_string()),
            },
            Err(error) => Fetched::Failed {
                io: error.is_io_error(),
                line: error.position().map(|position| position.line()),
                message: error.to_string(),
                causes: vec![],
            },
        });
    }
    fetches.push(Fetched::End);

    let mut engine = Engine::new();
    let mut diagnostics = String::new();
    let result = run(&fetches, &mut engine, &mut diagnostics);
    Outcome {
        engine,
        result,
        diagnostics,
    }
}

fn process(input: &str) -> Outcome {
    process_stream(input.as_bytes())
}

fn rejected(outcome: &Outcome) -> u64 {
    match &outcome.result {
        Ok(rejected) => *rejected,
        Err(error) => panic!("in-memory input: {error:?}"),
    }
}

fn dec(raw: &str) -> Decimal {
    let value = rust_decimal::Decimal::from_str(raw).expect("valid decimal");
    Decimal::from_parts(value.mantissa(), value.scale()).expect("every decimal can be held")
}

#[test]
fn processes_the_specification_example() {
    let outcome = process(
        "type, client, tx, amount\n\
         deposit, 1, 1, 1.0\n\
         deposit, 2, 2, 2.0\n\
         deposit, 1, 3, 2.0\n\
         withdrawal, 1, 4, 1.5\n\
         withdrawal, 2, 5, 3.0\n",
    );

    // The last withdrawal is refused: client 2 only has 2.0.
    assert_eq!(rejected(&outcome), 1);
    assert_eq!(
        outcome.engine.account(1).expect("client 1").available(),
        dec("1.5")
    );
    assert_eq!(
        outcome.engine.account(2).expect("client 2").available(),
        dec("2.0")
    );
}

#[test]
fn tolerates_whitespace_missing_columns_and_crlf() {
    let outcome = process(
        "type , client , tx , amount\r\n\
         deposit ,  1 ,  1 ,  1.0000\r\n\
         dispute ,  1 ,  1 ,\r\n\
         resolve ,  1 ,  1\r\n",
    );

    assert_eq!(rejected(&outcome), 0, "{}", outcome.diagnostics);
    let account = outcome.engine.account(1).expect("client 1");
    assert_eq!(account.available(), dec("1.0000"));
    assert_eq!(account.held(), Decimal::zero());
}

#[test]
fn accepts_columns_in_any_order() {
    let outcome = process("amount,tx,client,type\n2.5,7,3,deposit\n");

    assert_eq!(rejected(&outcome), 0, "{}", outcome.diagnostics);
    assert_eq!(
        outcome.engine.account(3).expect("client 3").available(),
        dec("2.5")
    );
}

#[test]
fn a_bad_record_does_not_stop_the_run() {
    let outcome = process(
        "type,client,tx,amount\n\
         deposit,1,1,1.0\n\
         deposit,notanumber,2,1.0\n\
         transfer,1,3,1.0\n\
         deposit,1,4,1.00001\n\
         deposit,1,5,-1.0\n\
         withdrawal,1,6,\n\
         deposit,1,7,1.0\n",
    );

    assert_eq!(rejected(&outcome), 5);
    assert_eq!(
        outcome.engine.account(1).expect("client 1").available(),
        dec("2.0")
    );

    for expected in [
        "line 3",
        "line 4: rejected, unrecognised transaction type `transfer`",
        "line 5",
        "line 6",
        "line 7",
    ] {
        assert!(
            outcome.diagnostics.contains(expected),
            "expected {expected:?} in:\n{}",
            outcome.diagnostics
        );
    }
}

#[test]
fn an_empty_input_is_not_an_error() {
    let outcome = process("type,client,tx,amount\n");
    assert_eq!(rejected(&outcome), 0);
    assert_eq!(outcome.engine.accounts().len(), 0);
}

#[test]
fn a_record_that_is_not_utf8_is_rejected_like_any_other() {
    let input: &[u8] = b"type,client,tx,amount\n\
                         deposit,1,1,1.0\n\
                         deposit,1,\xff,1.0\n\
                         deposit,1,3,2.0\n";

    let outcome = process_stream(input);

    assert_eq!(rejected(&outcome), 1);
    assert_eq!(
        outcome.engine.account(1).expect("client 1").available(),
        dec("3.0"),
        "the records either side of the bad one still applied"
    );
}

/// Yields one valid chunk, then fails: the input stream is lost mid-run.
struct FailsAfterFirstChunk {
    sent: bool,
}

impl Read for FailsAfterFirstChunk {
    fn read(&mut self, buffer: &mut [u8]) -> std::io::Result<usize> {
        const CHUNK: &[u8] = b"type,client,tx,amount\ndeposit,1,1,1.0\n";
        if self.sent || buffer.len() < CHUNK.len() {
            return Err(std::io::Error::new(
                std::io::ErrorKind::BrokenPipe,
                "the stream went away",
            ));
        }
        self.sent = true;
        buffer[..CHUNK.len()].copy_from_slice(CHUNK);
        Ok(CHUNK.len())
    }
}

#[test]
fn losing_the_input_stream_is_fatal() {
    let outcome = process_stream(FailsAfterFirstChunk { sent: false });

    let error = outcome
        .result
        .expect_err("a broken input stream must not be mistaken for a bad record");

    assert!(matches!(error, FatalError::Read(_)), "{error:?}");
}

fn row(kind: &'static str, amount: Option<&'static str>) -> Fetched<'static> {
    Fetched::Record {
        line: Some(5),
        raw: Ok(RawRecord {
            kind,
            client: 1,
            tx: 2,
            amount,
        }),
    }
}

fn lost() -> Fetched<'static> {
    Fetched::Failed {
        io: true,
        line: None,
        message: "first".to_string(),
        causes: vec!["second".to_string(), "third".to_string()],
    }
}

#[test]
fn what_the_stream_gives_is_read_in_one_way() {
    assert!(matches!(next(&Fetched::End), Ok(None)));
    match next(&row("dispute", None)) {
        Ok(Some(Reading::Ready(entry))) => {
            assert_eq!(entry.line, 5);
            assert_eq!(entry.transaction, Transaction::Dispute { client: 1, tx: 2 });
        }
        other => panic!("{other:?}"),
    }
    assert!(matches!(
        next(&row("deposit", None)),
        Ok(Some(Reading::Rejected {
            line: 5,
            tx: Some(2),
            error: RecordError::MissingAmount("deposit")
        }))
    ));
    match next(&Fetched::Record {
        line: None,
        raw: Err("no such column".to_string()),
    }) {
        Ok(Some(Reading::Rejected { line, tx, error })) => {
            assert_eq!(line, 0);
            assert_eq!(tx, None);
            assert_eq!(
                error.message(),
                "could not be parsed as a CSV record: no such column"
            );
        }
        other => panic!("{other:?}"),
    }
    match next(&Fetched::Failed {
        io: false,
        line: Some(9),
        message: "not text".to_string(),
        causes: vec!["a byte".to_string()],
    }) {
        Ok(Some(Reading::Rejected { line, tx, error })) => {
            assert_eq!(line, 9);
            assert_eq!(tx, None);
            assert!(matches!(error, RecordError::Malformed(said) if said == "not text"));
        }
        other => panic!("{other:?}"),
    }
    match next(&lost()) {
        Err(FatalError::Read(causes)) => assert_eq!(causes, vec!["first", "second", "third"]),
        other => panic!("{other:?}"),
    }
}

#[test]
fn nothing_is_applied_after_the_stream_is_lost_or_ended() {
    let mut engine = Engine::new();
    let mut diagnostics = "before\n".to_string();
    let fetches = vec![row("deposit", Some("1.0")), lost(), row("deposit", Some("2.0"))];
    assert!(run(&fetches, &mut engine, &mut diagnostics).is_err());
    assert_eq!(engine.account(1).unwrap().total(), dec("1"));
    assert_eq!(diagnostics, "before\n");

    let fetches = vec![Fetched::End, row("withdrawal", Some("1.0"))];
    assert_eq!(run(&fetches, &mut engine, &mut diagnostics).unwrap(), 0);
    assert_eq!(engine.account(1).unwrap().total(), dec("1"));
}

#[test]
fn every_rejected_record_is_reported_once() {
    let mut engine = Engine::new();
    let mut diagnostics = String::new();
    let fetches = vec![
        row("transfer", None),
        row("dispute", None),
        row("deposit", Some("1.0")),
        row("deposit", Some("1.0")),
    ];
    assert_eq!(run(&fetches, &mut engine, &mut diagnostics).unwrap(), 3);
    assert_eq!(
        diagnostics,
        "line 5: rejected, unrecognised transaction type `transfer` (tx 2)\n\
         line 5: rejected, client 1 has no disputable transaction 2 (tx 2)\n\
         line 5: rejected, client 1 already has a transaction 2 (tx 2)\n"
    );
    assert_eq!(report(7, None, "why"), "line 7: rejected, why\n");
    assert_eq!(
        report(18446744073709551615, Some(4294967295), "why"),
        "line 18446744073709551615: rejected, why (tx 4294967295)\n"
    );
}

#[test]
fn every_diagnostic_names_line_transaction_and_reason() {
    let outcome = process("type,client,tx,amount\nwithdrawal,7,42,1.0\n");
    assert_eq!(rejected(&outcome), 1);
    assert_eq!(
        outcome.diagnostics,
        "line 2: rejected, client 7 has 0 available, cannot withdraw 1.0 (tx 42)\n"
    );

    let outcome = process(
        "type,client,tx,amount\n\
         deposit,1,11,79228162514264337593543950335\n\
         deposit,1,12,0.1\n\
         transfer,1,13,1.0\n\
         deposit,1,14,\n\
         deposit,1,15,one\n\
         deposit,1,16,-1.0\n\
         deposit,1,17,1.00001\n\
         dispute,1,11,\n\
         chargeback,1,11,\n\
         deposit,1,18,1.0\n",
    );
    assert_eq!(
        outcome.diagnostics,
        "line 3: rejected, would overflow the balances of client 1 (tx 12)\n\
         line 4: rejected, unrecognised transaction type `transfer` (tx 13)\n\
         line 5: rejected, a deposit requires an amount (tx 14)\n\
         line 6: rejected, amount `one` is not a valid decimal number (tx 15)\n\
         line 7: rejected, amount `-1.0` is negative (tx 16)\n\
         line 8: rejected, amount `1.00001` has more than four decimal places (tx 17)\n\
         line 11: rejected, client 1 is locked (tx 18)\n"
    );
}

#[test]
fn records_can_be_taken_one_by_one() {
    let mut engine = Engine::new();
    let mut diagnostics = String::new();
    assert!(matches!(
        take(&row("deposit", Some("1.5")), &mut engine, &mut diagnostics),
        Ok(Some(false))
    ));
    assert_eq!(engine.account(1).unwrap().available(), dec("1.5"));
    assert_eq!(diagnostics, "");
    assert!(matches!(
        take(&row("deposit", Some("1.5")), &mut engine, &mut diagnostics),
        Ok(Some(true))
    ));
    assert_eq!(
        diagnostics,
        "line 5: rejected, client 1 already has a transaction 2 (tx 2)\n"
    );
    assert!(matches!(
        take(&Fetched::End, &mut engine, &mut diagnostics),
        Ok(None)
    ));
    assert!(matches!(
        take(&lost(), &mut engine, &mut diagnostics),
        Err(FatalError::Read(_))
    ));
    assert_eq!(engine.account(1).unwrap().available(), dec("1.5"));
}
