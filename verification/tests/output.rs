use std::str::FromStr;

use transaction_solver::decimal::{Decimal, MAX_MANTISSA};
use transaction_solver::output;
use transaction_solver::output::render;
use transaction_solver::{AccountRow, Amount, Engine, Transaction};

fn dec(raw: &str) -> Decimal {
    let value = rust_decimal::Decimal::from_str(raw).expect("valid decimal");
    Decimal::from_parts(value.mantissa(), value.scale()).expect("every decimal can be held")
}

fn rendered(engine: &Engine) -> String {
    output::write(engine)
}

#[test]
fn pads_to_four_decimal_places() {
    assert_eq!(render(dec("0")), "0.0000");
    assert_eq!(render(dec("1.5")), "1.5000");
    assert_eq!(render(dec("1.0001")), "1.0001");
    assert_eq!(render(dec("-1.5")), "-1.5000");
}

#[test]
fn renders_extreme_values_without_panicking() {
    let largest = Decimal::from_parts(MAX_MANTISSA, 0).expect("the largest decimal");
    let smallest = Decimal::from_parts(-MAX_MANTISSA, 0).expect("the smallest decimal");
    assert_eq!(render(largest), "79228162514264337593543950335.0000");
    assert_eq!(render(smallest), "-79228162514264337593543950335.0000");
}

#[test]
fn writes_a_header_even_with_no_accounts() {
    assert_eq!(
        rendered(&Engine::new()),
        "client,available,held,total,locked\n"
    );
}

#[test]
fn rows_are_ordered_by_client() {
    let mut engine = Engine::new();
    for client in [9, 1, 5] {
        engine
            .apply(Transaction::Deposit {
                client,
                tx: u32::from(client),
                amount: Amount::parse("1.0").expect("valid amount"),
            })
            .expect("deposit");
    }

    assert_eq!(
        rendered(&engine),
        "client,available,held,total,locked\n\
         1,1.0000,0.0000,1.0000,false\n\
         5,1.0000,0.0000,1.0000,false\n\
         9,1.0000,0.0000,1.0000,false\n"
    );
}

#[test]
fn a_finer_number_keeps_its_places() {
    assert_eq!(render(dec("0.00001")), "0.00001");
    assert_eq!(render(dec("-0.05")), "-0.0500");
    assert_eq!(render(dec("12.3456")), "12.3456");
}

#[test]
fn a_row_is_one_line_of_five_fields() {
    let row = AccountRow {
        client: 65535,
        available: dec("-5"),
        held: dec("5.25"),
        total: dec("0.25"),
        locked: true,
    };
    assert_eq!(output::line(&row), "65535,-5.0000,5.2500,0.2500,true\n");
    assert_eq!(output::header(), "client,available,held,total,locked\n");
}

#[test]
fn what_is_rendered_reads_back() {
    for text in ["0", "1.5", "-7.25", "123456789.0001"] {
        let value = dec(text);
        assert_eq!(Decimal::from_str_exact(&render(value)), Some(value));
    }
}
