use std::str::FromStr;

use transaction_solver::decimal::{Decimal, MAX_MANTISSA, MAX_SCALE};

fn of(mantissa: i128, scale: u32) -> Decimal {
    Decimal::from_parts(mantissa, scale).expect("in range")
}

fn parts(value: Decimal) -> (i128, u32) {
    (value.mantissa(), value.scale())
}

#[test]
fn only_96_bits_and_28_places_can_be_held() {
    assert!(Decimal::from_parts(MAX_MANTISSA, MAX_SCALE).is_some());
    assert!(Decimal::from_parts(-MAX_MANTISSA, MAX_SCALE).is_some());
    assert!(Decimal::from_parts(MAX_MANTISSA + 1, 0).is_none());
    assert!(Decimal::from_parts(-MAX_MANTISSA - 1, 0).is_none());
    assert!(Decimal::from_parts(0, MAX_SCALE + 1).is_none());
    assert_eq!(parts(Decimal::zero()), (0, 0));
}

#[test]
fn sums_take_the_wider_scale() {
    assert_eq!(parts(of(15, 1).checked_add(of(25, 2)).unwrap()), (175, 2));
    assert_eq!(parts(of(25, 2).checked_add(of(15, 1)).unwrap()), (175, 2));
    assert_eq!(parts(of(-5, 0).checked_add(of(50, 1)).unwrap()), (0, 1));
    assert_eq!(parts(of(7, 0).checked_add(of(-9, 0)).unwrap()), (-2, 0));
}

#[test]
fn adding_zero_leaves_a_number_as_it_is_written() {
    assert_eq!(parts(of(15, 1).checked_add(of(0, 4)).unwrap()), (15, 1));
    assert_eq!(parts(of(0, 4).checked_add(of(15, 1)).unwrap()), (15, 1));
    assert_eq!(parts(of(0, 4).checked_add(of(0, 1)).unwrap()), (0, 1));
    assert_eq!(parts(of(15, 1).checked_sub(of(0, 4)).unwrap()), (15, 1));
    assert_eq!(parts(of(0, 4).checked_sub(of(15, 1)).unwrap()), (-15, 1));
    assert_eq!(parts(of(0, 4).checked_sub(of(0, 1)).unwrap()), (0, 1));
}

#[test]
fn differences_take_the_wider_scale() {
    assert_eq!(parts(of(15, 1).checked_sub(of(25, 2)).unwrap()), (125, 2));
    assert_eq!(parts(of(25, 2).checked_sub(of(15, 1)).unwrap()), (-125, 2));
    assert_eq!(parts(of(5, 0).checked_sub(of(50, 1)).unwrap()), (0, 1));
}

#[test]
fn large_numbers_are_added_exactly_as_long_as_they_fit() {
    let large = of(MAX_MANTISSA - 10, 4);
    assert_eq!(
        parts(large.checked_add(of(10, 4)).unwrap()),
        (MAX_MANTISSA, 4)
    );
    assert_eq!(
        parts(large.checked_sub(of(-10, 4)).unwrap()),
        (MAX_MANTISSA, 4)
    );
    assert_eq!(
        parts(of(MAX_MANTISSA / 10_000, 0).checked_add(of(1, 4)).unwrap()),
        ((MAX_MANTISSA / 10_000) * 10_000 + 1, 4)
    );
}

#[test]
fn longer_sums_are_rounded_to_fewer_places() {
    let large = of(MAX_MANTISSA, 1);
    assert_eq!(
        parts(large.checked_add(of(1, 1)).unwrap()),
        (7_922_816_251_426_433_759_354_395_034, 0)
    );
    assert_eq!(
        parts(of(-MAX_MANTISSA, 1).checked_sub(of(1, 1)).unwrap()),
        (-7_922_816_251_426_433_759_354_395_034, 0)
    );
    assert_eq!(
        parts(of(MAX_MANTISSA, 0).checked_add(of(4, 1)).unwrap()),
        (MAX_MANTISSA, 0)
    );
    assert_eq!(
        parts(of(MAX_MANTISSA, 0).checked_sub(of(4, 1)).unwrap()),
        (MAX_MANTISSA, 0)
    );
}

#[test]
fn sums_out_of_range_are_refused() {
    assert!(of(MAX_MANTISSA, 0).checked_add(of(1, 0)).is_none());
    assert!(of(-MAX_MANTISSA, 0).checked_sub(of(1, 0)).is_none());
    assert!(of(MAX_MANTISSA, 0).checked_add(of(5, 1)).is_none());
    assert!(of(MAX_MANTISSA, 0).checked_sub(of(-MAX_MANTISSA, 0)).is_none());
}

#[test]
fn saturating_stops_at_the_limits() {
    assert_eq!(
        parts(of(MAX_MANTISSA, 0).saturating_add(of(1, 0))),
        (MAX_MANTISSA, 0)
    );
    assert_eq!(
        parts(of(-MAX_MANTISSA, 0).saturating_add(of(-1, 0))),
        (-MAX_MANTISSA, 0)
    );
    assert_eq!(parts(of(1, 0).saturating_add(of(1, 0))), (2, 0));
}

#[test]
fn decimals_are_compared_by_value() {
    assert_eq!(of(15, 1), of(1500, 3));
    assert_ne!(of(15, 1), of(15, 2));
    assert!(of(15, 1) > of(15, 2));
    assert!(of(-15, 1).less_than(of(15, 2)));
    assert!(!of(150, 2).less_than(of(15, 1)));
    assert!(of(MAX_MANTISSA, 28).less_than(of(MAX_MANTISSA, 0)));
    assert!(of(-MAX_MANTISSA, 0) < of(MAX_MANTISSA, 28));
    assert!(of(0, 0) >= of(0, 7));
}

#[test]
fn decimals_are_written_with_their_places() {
    for (value, text) in [
        (of(0, 0), "0"),
        (of(0, 2), "0.00"),
        (of(5, 2), "0.05"),
        (of(-5, 2), "-0.05"),
        (of(105, 2), "1.05"),
        (of(-12345, 0), "-12345"),
        (of(MAX_MANTISSA, 28), "7.9228162514264337593543950335"),
        (of(1, 28), "0.0000000000000000000000000001"),
    ] {
        assert_eq!(value.to_string(), text);
    }
}

#[test]
fn texts_are_read_exactly() {
    for (text, expected) in [
        ("0", (0, 0)),
        ("007", (7, 0)),
        ("1.50", (150, 2)),
        (".5", (5, 1)),
        ("5.", (5, 0)),
        ("+5", (5, 0)),
        ("-1.25", (-125, 2)),
        ("-.5", (-5, 1)),
        ("-0.0", (0, 1)),
        ("79228162514264337593543950335", (MAX_MANTISSA, 0)),
        ("7.9228162514264337593543950335", (MAX_MANTISSA, 28)),
        ("000000000000000000000000000000000000001", (1, 0)),
    ] {
        assert_eq!(parts(Decimal::from_str_exact(text).unwrap()), expected, "{text}");
    }
    for text in [
        "",
        ".",
        "-",
        "+",
        "+-1",
        "1-",
        "1e3",
        " 1",
        "1 ",
        "1..2",
        "1.2.3",
        "\u{0661}",
        "79228162514264337593543950336",
        "0.12345678901234567890123456789",
    ] {
        assert!(Decimal::from_str_exact(text).is_none(), "{text}");
    }
}

#[test]
fn separators_may_follow_a_digit() {
    for (text, expected) in [
        ("1_000", Some((1000, 0))),
        ("1_0.5_0", Some((1050, 2))),
        ("1__0", Some((10, 0))),
        ("1_", Some((1, 0))),
        ("1_.5", Some((15, 1))),
        ("1._5", Some((15, 1))),
        ("0.1_", Some((1, 1))),
        ("_1", None),
        ("-_1", None),
        ("._1", None),
        ("_", None),
        ("0.1234567890123456789012345678", Some((1_234_567_890_123_456_789_012_345_678, 28))),
        ("0.123456789012345678901234567_8", Some((1_234_567_890_123_456_789_012_345_678, 28))),
        ("0.1234567890123456789012345678_", None),
    ] {
        assert_eq!(Decimal::from_str_exact(text).map(parts), expected, "{text}");
    }
}

/// What a text denotes, worked out character by character.
fn denoted(text: &str) -> Option<(i128, u32)> {
    let negative = text.starts_with('-');
    let body = match text.strip_prefix(['-', '+']) {
        Some(rest) => rest,
        None => text,
    };
    let first_digit = body.find(|c: char| c.is_ascii_digit())?;
    if body[..first_digit].contains('_') {
        return None;
    }
    let plain = body.replace('_', "");
    let (whole, fraction) = match plain.split_once('.') {
        Some((whole, fraction)) => (whole, fraction),
        None => (plain.as_str(), ""),
    };
    let written = format!("{whole}{fraction}");
    if !written.chars().all(|c| c.is_ascii_digit()) || fraction.len() > 28 {
        return None;
    }
    if fraction.len() == 28 && body.ends_with('_') {
        return None;
    }
    let mut value: i128 = 0;
    for digit in written.bytes() {
        value = value * 10 + i128::from(digit - b'0');
        if value > MAX_MANTISSA {
            return None;
        }
    }
    Some((if negative { -value } else { value }, fraction.len() as u32))
}

#[test]
fn every_short_text_is_read_by_the_same_rules() {
    let alphabet = ['0', '7', '.', '_', '-', '+', 'x'];
    let mut texts: Vec<String> = vec![String::new()];
    for _ in 0..5 {
        let longer: Vec<String> = texts
            .iter()
            .flat_map(|text| alphabet.iter().map(move |c| format!("{text}{c}")))
            .collect();
        for text in &longer {
            assert_eq!(Decimal::from_str_exact(text).map(parts), denoted(text), "{text}");
        }
        texts = longer;
    }
}

#[test]
fn long_texts_are_read_by_the_same_rules() {
    let mut random = Random(7);
    for _ in 0..20_000 {
        let length = 10 + random.next() % 35;
        let mut text = String::new();
        for index in 0..length {
            let c = match random.next() % 40 {
                0 if index == 0 => '-',
                1 if index == 0 => '+',
                0 | 1 => '.',
                2 | 3 => '_',
                4..=9 => '0',
                n => (b'0' + (n % 10) as u8) as char,
            };
            text.push(c);
        }
        assert_eq!(Decimal::from_str_exact(&text).map(parts), denoted(&text), "{text}");
    }
}

/// A reproducible stream of numbers.
struct Random(u64);

impl Random {
    fn next(&mut self) -> u64 {
        self.0 = self.0.wrapping_add(0x9e37_79b9_7f4a_7c15);
        let mut z = self.0;
        z = (z ^ (z >> 30)).wrapping_mul(0xbf58_476d_1ce4_e5b9);
        z = (z ^ (z >> 27)).wrapping_mul(0x94d0_49bb_1331_11eb);
        z ^ (z >> 31)
    }

    /// A mantissa of any size, often close to a limit.
    fn mantissa(&mut self) -> i128 {
        let any = (i128::from(self.next()) << 32 | i128::from(self.next() & 0xffff_ffff))
            & MAX_MANTISSA;
        let size = match self.next() % 6 {
            0 => any >> (self.next() % 96),
            1 => MAX_MANTISSA - i128::from(self.next() % 20),
            2 => 10i128.pow((self.next() % 29) as u32) - i128::from(self.next() % 2),
            3 => MAX_MANTISSA / 10i128.pow((self.next() % 28) as u32),
            4 => i128::from(self.next() % 1000),
            _ => any,
        };
        if self.next() % 2 == 0 {
            size
        } else {
            -size
        }
    }
}

/// The digits of a number, least significant first.
fn digits_of(mut n: i128) -> Vec<u8> {
    let mut digits = Vec::new();
    n = n.abs();
    while n > 0 {
        digits.push((n % 10) as u8);
        n /= 10;
    }
    digits
}

/// The number that digits denote, if a mantissa can hold it.
fn number_of(digits: &[u8]) -> Option<i128> {
    let mut value: i128 = 0;
    for digit in digits.iter().rev() {
        value = value * 10 + i128::from(*digit);
        if value > MAX_MANTISSA {
            return None;
        }
    }
    Some(value)
}

/// The exact sum, without the fewest decimal places that make it fit, rounded half to even.
fn expected_sum(a: (i128, u32), b: (i128, u32)) -> Option<(i128, u32)> {
    if a.0 == 0 {
        return Some(b);
    }
    if b.0 == 0 {
        return Some(a);
    }
    let scale = a.1.max(b.1);
    let widened = |n: (i128, u32)| -> Vec<i8> {
        let mut digits = vec![0i8; (scale - n.1) as usize];
        digits.extend(digits_of(n.0).iter().map(|digit| *digit as i8));
        if n.0 < 0 {
            for digit in &mut digits {
                *digit = -*digit;
            }
        }
        digits
    };
    let (left, right) = (widened(a), widened(b));
    let length = left.len().max(right.len()) + 1;
    let mut total: Vec<i8> = (0..length)
        .map(|i| left.get(i).unwrap_or(&0) + right.get(i).unwrap_or(&0))
        .collect();
    let negative = total.iter().rev().find(|digit| **digit != 0).map_or(false, |digit| *digit < 0);
    if negative {
        for digit in &mut total {
            *digit = -*digit;
        }
    }
    for i in 0..length - 1 {
        while total[i] > 9 {
            total[i] -= 10;
            total[i + 1] += 1;
        }
        while total[i] < 0 {
            total[i] += 10;
            total[i + 1] -= 1;
        }
    }
    let digits: Vec<u8> = total.iter().map(|digit| *digit as u8).collect();
    for dropped in 0..=scale as usize {
        let kept = &digits[dropped..];
        let gone = &digits[..dropped];
        let up = match gone.split_last() {
            None => false,
            Some((first, others)) => {
                let more = others.iter().any(|digit| *digit > 0);
                *first > 5 || (*first == 5 && (more || kept[0] % 2 == 1))
            }
        };
        if let Some(value) = number_of(kept) {
            let value = value + i128::from(up);
            if value <= MAX_MANTISSA {
                return Some((if negative { -value } else { value }, scale - dropped as u32));
            }
        }
    }
    None
}

#[test]
fn sums_are_shortened_by_the_fewest_places_and_rounded_half_to_even() {
    let mut random = Random(1);
    for _ in 0..40_000 {
        let a = (random.mantissa(), (random.next() % 29) as u32);
        let b = match random.next() % 3 {
            0 => (random.mantissa(), a.1),
            _ => (random.mantissa(), (random.next() % 29) as u32),
        };
        let expected = expected_sum(a, b);
        let sum = of(a.0, a.1).checked_add(of(b.0, b.1)).map(parts);
        assert_eq!(sum, expected, "{a:?} + {b:?}");
        let rest = of(a.0, a.1).checked_sub(of(-b.0, b.1)).map(parts);
        assert_eq!(rest, expected, "{a:?} - -{b:?}");
    }
}

#[test]
fn halves_are_rounded_to_the_even_neighbour() {
    // 2^95 + 2^95 and neighbours, with one place to spare.
    let half = (MAX_MANTISSA + 1) / 2;
    for (a, b) in [(half, half), (half + 2, half + 3), (half + 7, half + 8), (MAX_MANTISSA, 9)] {
        assert_eq!(
            of(a, 1).checked_add(of(b, 1)).map(parts),
            expected_sum((a, 1), (b, 1))
        );
    }
    let large = 79_228_162_514_264_337_593_543_950_320i128;
    assert_eq!(
        parts(of(large, 1).checked_add(of(25, 1)).unwrap()),
        (7_922_816_251_426_433_759_354_395_034, 0)
    );
    assert_eq!(
        parts(of(large, 1).checked_add(of(35, 1)).unwrap()),
        (7_922_816_251_426_433_759_354_395_036, 0)
    );
}

#[test]
fn the_sign_is_that_of_the_value() {
    assert!(of(-1, 4).is_sign_negative());
    assert!(!of(0, 4).is_sign_negative());
    assert!(!Decimal::from_str_exact("-0").unwrap().is_sign_negative());
}

#[test]
fn reading_what_was_written_gives_the_same_number() {
    for text in ["0.0001", "12.5", "-7", "79228162514264337593543950335"] {
        let value = Decimal::from_str_exact(text).unwrap();
        assert_eq!(value.to_string(), text);
        let outside = rust_decimal::Decimal::from_str(text).unwrap();
        assert_eq!(parts(value), (outside.mantissa(), outside.scale()));
    }
}
