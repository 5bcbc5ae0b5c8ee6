use transaction_solver::record::RawRecord;
use transaction_solver::{Amount, RecordError, Transaction};

fn raw<'a>(kind: &'a str, amount: Option<&'a str>) -> RawRecord<'a> {
    RawRecord {
        kind,
        client: 1,
        tx: 7,
        amount,
    }
}

#[test]
fn parses_every_type() {
    let cases: [(&str, Option<&str>, Transaction); 5] = [
        (
            "deposit",
            Some("1.5"),
            Transaction::Deposit {
                client: 1,
                tx: 7,
                amount: Amount::parse("1.5").unwrap(),
            },
        ),
        (
            "withdrawal",
            Some("1.5"),
            Transaction::Withdrawal {
                client: 1,
                tx: 7,
                amount: Amount::parse("1.5").unwrap(),
            },
        ),
        ("dispute", None, Transaction::Dispute { client: 1, tx: 7 }),
        ("resolve", None, Transaction::Resolve { client: 1, tx: 7 }),
        (
            "chargeback",
            None,
            Transaction::Chargeback { client: 1, tx: 7 },
        ),
    ];

    for (kind, amount, expected) in cases {
        assert_eq!(Transaction::from_raw(&raw(kind, amount)).unwrap(), expected);
    }
}

#[test]
fn type_matching_is_case_insensitive() {
    assert!(Transaction::from_raw(&raw("DEPOSIT", Some("1.0"))).is_ok());
    assert!(Transaction::from_raw(&raw("Dispute", None)).is_ok());
}

#[test]
fn rejects_unknown_type() {
    assert!(matches!(
        Transaction::from_raw(&raw("transfer", Some("1.0"))),
        Err(RecordError::UnknownType(_))
    ));
}

#[test]
fn value_movements_require_an_amount() {
    for kind in ["deposit", "withdrawal"] {
        assert!(matches!(
            Transaction::from_raw(&raw(kind, None)),
            Err(RecordError::MissingAmount(_))
        ));
        assert!(matches!(
            Transaction::from_raw(&raw(kind, Some(""))),
            Err(RecordError::MissingAmount(_))
        ));
    }
}

#[test]
fn references_ignore_a_stray_amount() {
    assert_eq!(
        Transaction::from_raw(&raw("dispute", Some("9.9"))).unwrap(),
        Transaction::Dispute { client: 1, tx: 7 }
    );
}

#[test]
fn only_ascii_capitals_are_ignored() {
    assert_eq!(
        Transaction::from_raw(&raw("chargeBACK", None)).unwrap(),
        Transaction::Chargeback { client: 1, tx: 7 }
    );
    // The Kelvin sign becomes a small k only outside ASCII.
    assert!(matches!(
        Transaction::from_raw(&raw("chargebac\u{212a}", None)),
        Err(RecordError::UnknownType(_))
    ));
    assert!(matches!(
        Transaction::from_raw(&raw("deposit ", Some("1"))),
        Err(RecordError::UnknownType(kind)) if kind == "deposit "
    ));
}

#[test]
fn a_missing_amount_names_the_type() {
    let error = Transaction::from_raw(&raw("WITHDRAWAL", None)).unwrap_err();
    assert_eq!(error.message(), "a withdrawal requires an amount");
}

#[test]
fn a_bad_amount_is_reported_as_written() {
    assert!(matches!(
        Transaction::from_raw(&raw("deposit", Some("1.00001"))),
        Err(RecordError::ExcessPrecision(raw)) if raw == "1.00001"
    ));
}

#[test]
fn transactions_are_the_same_if_they_ask_for_the_same() {
    let deposit = |text| Transaction::Deposit {
        client: 1,
        tx: 2,
        amount: Amount::parse(text).unwrap(),
    };
    assert_eq!(deposit("1.5"), deposit("1.50"));
    assert_ne!(deposit("1.5"), deposit("1.51"));
    assert_ne!(
        Transaction::Dispute { client: 1, tx: 2 },
        Transaction::Resolve { client: 1, tx: 2 }
    );
    assert_ne!(
        Transaction::Dispute { client: 1, tx: 2 },
        Transaction::Dispute { client: 2, tx: 2 }
    );
    assert_eq!(deposit("1").client(), 1);
    assert_eq!(Transaction::Chargeback { client: 9, tx: 2 }.client(), 9);
}
