use transaction_solver::decimal::Decimal;
use transaction_solver::{Amount, RecordError};

fn parse(raw: &str) -> Result<Decimal, RecordError> {
    Amount::parse(raw).map(Amount::value)
}

#[test]
fn accepts_up_to_four_decimals() {
    assert_eq!(parse("1.0001").unwrap().to_string(), "1.0001");
    assert_eq!(parse("1.0").unwrap().to_string(), "1.0");
    assert_eq!(parse("0").unwrap().to_string(), "0");
}

#[test]
fn accepts_zero() {
    assert_eq!(parse("0.0000").unwrap(), Decimal::zero());
    assert_eq!(parse("-0.0").unwrap(), Decimal::zero());
}

#[test]
fn rejects_excess_precision_rather_than_rounding() {
    assert!(matches!(
        parse("1.00001"),
        Err(RecordError::ExcessPrecision(_))
    ));
}

#[test]
fn rejects_negative() {
    assert!(matches!(parse("-1.0"), Err(RecordError::NegativeAmount(_))));
}

#[test]
fn rejects_garbage() {
    for raw in ["", "abc", "1.2.3", "1,0", "--1"] {
        assert!(
            matches!(parse(raw), Err(RecordError::MalformedAmount(_))),
            "{raw} should not parse"
        );
    }
}

#[test]
fn accepts_the_largest_representable_value() {
    assert!(parse("79228162514264337593543950335").is_ok());
    assert!(matches!(
        parse("79228162514264337593543950336"),
        Err(RecordError::MalformedAmount(_))
    ));
}

#[test]
fn an_amount_keeps_its_decimal_places() {
    assert_eq!(Amount::parse("10.0").unwrap().to_string(), "10.0");
    assert_eq!(Amount::parse("10").unwrap().to_string(), "10");
}

#[test]
fn amounts_are_compared_by_value() {
    let short = Amount::parse("1.5").unwrap();
    let long = Amount::parse("1.5000").unwrap();
    let more = Amount::parse("1.5001").unwrap();
    assert_eq!(short, long);
    assert!(long < more);
    assert!(more > short);
    assert!(short <= long);
}

#[test]
fn a_value_is_validated_in_order() {
    let fine = Decimal::from_parts(-1, 5);
    assert!(matches!(
        Amount::validate("-0.00001", fine),
        Err(RecordError::NegativeAmount(raw)) if raw == "-0.00001"
    ));
    assert!(matches!(
        Amount::validate("0.00001", Decimal::from_parts(1, 5)),
        Err(RecordError::ExcessPrecision(raw)) if raw == "0.00001"
    ));
    assert!(matches!(
        Amount::validate("what", None),
        Err(RecordError::MalformedAmount(raw)) if raw == "what"
    ));
    assert!(Amount::validate("0.0001", Decimal::from_parts(1, 4)).is_ok());
}
