use transaction_solver::{FatalError, RecordError};

#[test]
fn every_rejection_has_its_message() {
    for (error, message) in [
        (
            RecordError::Malformed("no luck".to_string()),
            "could not be parsed as a CSV record: no luck",
        ),
        (
            RecordError::UnknownType("transfer".to_string()),
            "unrecognised transaction type `transfer`",
        ),
        (
            RecordError::MissingAmount("deposit"),
            "a deposit requires an amount",
        ),
        (
            RecordError::MalformedAmount("1,0".to_string()),
            "amount `1,0` is not a valid decimal number",
        ),
        (
            RecordError::NegativeAmount("-1".to_string()),
            "amount `-1` is negative",
        ),
        (
            RecordError::ExcessPrecision("1.00001".to_string()),
            "amount `1.00001` has more than four decimal places",
        ),
        (
            RecordError::DuplicateTx { client: 1, tx: 20 },
            "client 1 already has a transaction 20",
        ),
        (
            RecordError::UnknownTx { client: 65535, tx: 4294967295 },
            "client 65535 has no disputable transaction 4294967295",
        ),
        (
            RecordError::AlreadyDisputed { client: 1, tx: 0 },
            "transaction 0 of client 1 is already under dispute",
        ),
        (
            RecordError::NotDisputed { client: 10, tx: 100 },
            "transaction 100 of client 10 is not under dispute",
        ),
        (
            RecordError::InsufficientFunds {
                client: 1,
                available: "10.0".to_string(),
                requested: "999.0".to_string(),
            },
            "client 1 has 10.0 available, cannot withdraw 999.0",
        ),
        (RecordError::AccountLocked(7), "client 7 is locked"),
        (
            RecordError::Overflow(7),
            "would overflow the balances of client 7",
        ),
    ] {
        assert_eq!(error.message(), message);
    }
}

#[test]
fn every_fatal_error_has_its_message() {
    for (error, message) in [
        (
            FatalError::Open {
                path: "a.csv".to_string(),
                causes: vec![],
            },
            "cannot open `a.csv`",
        ),
        (FatalError::Read(vec![]), "cannot read the input"),
        (FatalError::Write(vec![]), "cannot write the output"),
        (FatalError::Runtime(vec![]), "cannot start the worker runtime"),
        (
            FatalError::ReaderPanicked,
            "the input reader stopped unexpectedly",
        ),
    ] {
        assert_eq!(error.message(), message);
        assert_eq!(error.report(), format!("error: {message}\n"));
    }
}

#[test]
fn a_report_names_every_cause_in_turn() {
    let error = FatalError::Open {
        path: "a.csv".to_string(),
        causes: vec!["no such file".to_string(), "the disk is gone".to_string()],
    };
    assert_eq!(
        error.report(),
        "error: cannot open `a.csv`\n  caused by: no such file\n  caused by: the disk is gone\n"
    );
}
