//! Decimal numbers of 96 bits and up to 28 decimal places, with the arithmetic of
//! `rust_decimal`.

use crate::digits;
use std::cmp::Ordering;
use vstd::prelude::*;

verus! {

/// The largest magnitude that a mantissa can have: 2^96 - 1.
pub const MAX_MANTISSA: i128 = 79_228_162_514_264_337_593_543_950_335;

/// The largest number of decimal places.
pub const MAX_SCALE: u32 = 28;

/// What a decimal stands for: `mantissa / 10^scale`. Two numbers of one value can differ in
/// their scale, as 1.5 and 1.50 do.
pub struct Number {
    pub mantissa: int,
    pub scale: nat,
}

/// Ten to the power of `n`.
pub open spec fn ten_to(n: nat) -> nat
    decreases n,
{
    if n == 0 {
        1
    } else {
        10 * ten_to((n - 1) as nat)
    }
}

/// The magnitude of `n`.
pub open spec fn magnitude(n: int) -> nat {
    if n < 0 {
        (-n) as nat
    } else {
        n as nat
    }
}

impl Number {
    /// The number can be held: its mantissa has at most 96 bits and its scale is in range.
    pub open spec fn fits(self) -> bool {
        magnitude(self.mantissa) <= MAX_MANTISSA && self.scale <= MAX_SCALE
    }

    /// The mantissa once the number is written with `scale` decimal places.
    pub open spec fn at_scale(self, scale: nat) -> int {
        self.mantissa * ten_to((scale - self.scale) as nat)
    }

    /// The value, counted in units of 10^-28.
    pub open spec fn value(self) -> int {
        self.at_scale(MAX_SCALE as nat)
    }
}

/// Zero without decimal places.
pub open spec fn zero() -> Number {
    Number { mantissa: 0, scale: 0 }
}

/// The larger of two scales.
pub open spec fn wider(a: Number, b: Number) -> nat {
    if a.scale >= b.scale {
        a.scale
    } else {
        b.scale
    }
}

/// The sum of two numbers before any limit on its mantissa: at the wider of the two scales,
/// except that adding zero leaves the other number as it is written.
pub open spec fn exact_sum(a: Number, b: Number) -> Number {
    if a.mantissa == 0 {
        b
    } else if b.mantissa == 0 {
        a
    } else {
        Number { mantissa: a.at_scale(wider(a, b)) + b.at_scale(wider(a, b)), scale: wider(a, b) }
    }
}

/// The difference of two numbers before any limit on its mantissa.
pub open spec fn exact_difference(a: Number, b: Number) -> Number {
    if a.mantissa == 0 {
        Number { mantissa: -b.mantissa, scale: b.scale }
    } else if b.mantissa == 0 {
        a
    } else {
        Number { mantissa: a.at_scale(wider(a, b)) - b.at_scale(wider(a, b)), scale: wider(a, b) }
    }
}

/// `n / unit`, rounded to the nearest whole number and from halfway to the even one.
pub open spec fn half_even(n: nat, unit: nat) -> nat {
    let rest = n % unit;
    if 2 * rest > unit || (2 * rest == unit && (n / unit) % 2 == 1) {
        n / unit + 1
    } else {
        n / unit
    }
}

/// `exact` without its last `dropped` decimal places, or without as many more as it takes to
/// hold it, rounded half to even; nothing if it cannot be held without any.
pub open spec fn shortened(exact: Number, dropped: nat) -> Option<Number>
    decreases exact.scale + 1 - dropped,
{
    if dropped > exact.scale {
        None
    } else {
        let size = half_even(magnitude(exact.mantissa), ten_to(dropped));
        if size <= MAX_MANTISSA {
            Some(
                Number {
                    mantissa: if exact.mantissa < 0 {
                        -size
                    } else {
                        size as int
                    },
                    scale: (exact.scale - dropped) as nat,
                },
            )
        } else {
            shortened(exact, dropped + 1)
        }
    }
}

/// What stands for `exact`: itself if its mantissa has at most 96 bits, otherwise the number
/// without the fewest decimal places that leave it with no more.
pub open spec fn held_as(exact: Number) -> Option<Number> {
    if magnitude(exact.mantissa) <= MAX_MANTISSA {
        Some(exact)
    } else {
        shortened(exact, 1)
    }
}

/// The sum of two numbers: exact where its mantissa fits 96 bits.
pub open spec fn sum(a: Number, b: Number) -> Option<Number> {
    held_as(exact_sum(a, b))
}

/// The difference of two numbers: exact where its mantissa fits 96 bits.
pub open spec fn difference(a: Number, b: Number) -> Option<Number> {
    held_as(exact_difference(a, b))
}

/// `exact` as a decimal that loses nothing of it: itself if its mantissa has at most 96 bits,
/// otherwise without as many zeros at its end as it takes; nothing if another digit would have
/// to go.
pub open spec fn lossless(exact: Number) -> Option<Number>
    decreases exact.scale,
{
    if magnitude(exact.mantissa) <= MAX_MANTISSA {
        Some(exact)
    } else if exact.scale > 0 && exact.mantissa % 10 == 0 {
        lossless(Number { mantissa: exact.mantissa / 10, scale: (exact.scale - 1) as nat })
    } else {
        None
    }
}

/// The sum of two numbers, if it can be held to the last digit.
pub open spec fn lossless_sum(a: Number, b: Number) -> Option<Number> {
    lossless(exact_sum(a, b))
}

/// The difference of two numbers, if it can be held to the last digit.
pub open spec fn lossless_difference(a: Number, b: Number) -> Option<Number> {
    lossless(exact_difference(a, b))
}

/// Some decimal has this value, counted in units of 10^-28.
pub open spec fn representable(value: int) -> bool {
    exists|n: Number| #[trigger] n.fits() && n.value() == value
}

/// The digits of `n`, with zeros in front of them up to `width` characters.
pub open spec fn padded(n: nat, width: nat) -> Seq<char> {
    let written = digits::digits(n);
    if written.len() < width {
        digits::zeros((width - written.len()) as nat) + written
    } else {
        written
    }
}

impl Number {
    /// The sign as it is written: only below zero.
    pub open spec fn sign(self) -> Seq<char> {
        if self.mantissa < 0 {
            seq!['-']
        } else {
            Seq::empty()
        }
    }

    /// All digits as they are written, at least one of them before the point.
    pub open spec fn all_written(self) -> Seq<char> {
        padded(magnitude(self.mantissa), self.scale + 1)
    }

    /// The digits before the point.
    pub open spec fn whole_digits(self) -> Seq<char> {
        self.all_written().take(self.all_written().len() - self.scale)
    }

    /// The digits after the point, as many as the scale says.
    pub open spec fn fraction_digits(self) -> Seq<char> {
        self.all_written().skip(self.all_written().len() - self.scale)
    }

    /// The number as text: with a point only where there are decimal places.
    pub open spec fn text(self) -> Seq<char> {
        if self.scale == 0 {
            self.sign() + self.whole_digits()
        } else {
            self.sign() + self.whole_digits() + seq!['.'] + self.fraction_digits()
        }
    }
}

/// Where the first point stands in `text`; its length if there is none.
pub open spec fn point_in(text: Seq<char>) -> nat
    decreases text.len(),
{
    if text.len() == 0 || text[0] == '.' {
        0
    } else {
        1 + point_in(text.skip(1))
    }
}

/// `text` without the sign in front of it.
pub open spec fn unsigned(text: Seq<char>) -> Seq<char> {
    if text.len() > 0 && (text[0] == '-' || text[0] == '+') {
        text.skip(1)
    } else {
        text
    }
}

/// What stands before the first point.
pub open spec fn before_point(text: Seq<char>) -> Seq<char> {
    text.take(point_in(text) as int)
}

/// What stands after the first point; nothing if there is no point.
pub open spec fn after_point(text: Seq<char>) -> Seq<char> {
    if point_in(text) < text.len() {
        text.skip(point_in(text) as int + 1)
    } else {
        Seq::empty()
    }
}

/// `text` without the `_` in it.
pub open spec fn unseparated(text: Seq<char>) -> Seq<char>
    decreases text.len(),
{
    if text.len() == 0 {
        Seq::empty()
    } else if text.last() == '_' {
        unseparated(text.drop_last())
    } else {
        unseparated(text.drop_last()).push(text.last())
    }
}

/// Every `_` stands somewhere behind a digit.
pub open spec fn separators_follow_a_digit(text: Seq<char>) -> bool {
    forall|i: int|
        0 <= i < text.len() && #[trigger] text[i] == '_' ==> exists|j: int|
            0 <= j < i && digits::is_digit(#[trigger] text[j])
}

/// What a text denotes: an optional sign, then digits with at most one point somewhere among or
/// around them, of which no more than 28 follow the point and whose number has at most 96 bits.
/// Once there is a digit, `_` may stand anywhere, except behind 28 digits that follow the
/// point. Anything else denotes nothing.
pub open spec fn parsed(text: Seq<char>) -> Option<Number> {
    let body = unsigned(text);
    let whole = before_point(unseparated(body));
    let fraction = after_point(unseparated(body));
    let value = digits::digits_value(whole + fraction);
    if (whole + fraction).len() > 0 && digits::all_digits(whole + fraction)
        && separators_follow_a_digit(body) && fraction.len() <= MAX_SCALE && (fraction.len()
        == MAX_SCALE ==> body.last() != '_') && value <= MAX_MANTISSA {
        Some(
            Number {
                mantissa: if text[0] == '-' {
                    -value
                } else {
                    value as int
                },
                scale: fraction.len(),
            },
        )
    } else {
        None
    }
}

/// A decimal number.
#[derive(Clone, Copy, Debug)]
pub struct Decimal {
    mantissa: i128,
    scale: u32,
}

impl View for Decimal {
    type V = Number;

    closed spec fn view(&self) -> Number {
        Number { mantissa: self.mantissa as int, scale: self.scale as nat }
    }
}

/// The number in an optional decimal.
pub open spec fn number_in(value: Option<Decimal>) -> Option<Number> {
    match value {
        Some(value) => Some(value@),
        None => None,
    }
}

/// Calls `rust_decimal::Decimal::checked_add`: the exact sum, without as many of its last
/// decimal places as it takes to fit 96 bits, rounded half to even; nothing if it does not fit
/// without any.
#[verifier::external_body]
fn outside_add(a: Decimal, b: Decimal) -> (total: Option<Decimal>)
    requires
        a@.fits(),
        b@.fits(),
    ensures
        number_in(total) == sum(a@, b@),
{
    let left = rust_decimal::Decimal::from_i128_with_scale(a.mantissa, a.scale);
    let right = rust_decimal::Decimal::from_i128_with_scale(b.mantissa, b.scale);
    left.checked_add(right).map(|n| Decimal { mantissa: n.mantissa(), scale: n.scale() })
}

/// Calls `rust_decimal::Decimal::checked_sub`: the exact difference, shortened as a sum is.
#[verifier::external_body]
fn outside_sub(a: Decimal, b: Decimal) -> (rest: Option<Decimal>)
    requires
        a@.fits(),
        b@.fits(),
    ensures
        number_in(rest) == difference(a@, b@),
{
    let left = rust_decimal::Decimal::from_i128_with_scale(a.mantissa, a.scale);
    let right = rust_decimal::Decimal::from_i128_with_scale(b.mantissa, b.scale);
    left.checked_sub(right).map(|n| Decimal { mantissa: n.mantissa(), scale: n.scale() })
}

/// Calls `<` of `rust_decimal::Decimal`, which compares two decimals by their value, whatever
/// their scales.
#[verifier::external_body]
fn outside_less(a: Decimal, b: Decimal) -> (less: bool)
    requires
        a@.fits(),
        b@.fits(),
    ensures
        less == (a@.value() < b@.value()),
{
    let left = rust_decimal::Decimal::from_i128_with_scale(a.mantissa, a.scale);
    let right = rust_decimal::Decimal::from_i128_with_scale(b.mantissa, b.scale);
    left < right
}

/// Calls `==` of `rust_decimal::Decimal`, which compares two decimals by their value, whatever
/// their scales.
#[verifier::external_body]
fn outside_equal(a: Decimal, b: Decimal) -> (equal: bool)
    requires
        a@.fits(),
        b@.fits(),
    ensures
        equal == (a@.value() == b@.value()),
{
    let left = rust_decimal::Decimal::from_i128_with_scale(a.mantissa, a.scale);
    let right = rust_decimal::Decimal::from_i128_with_scale(b.mantissa, b.scale);
    left == right
}

/// Calls `to_string` of `rust_decimal::Decimal`: the digits with a point in front of the last
/// `scale` of them and at least one digit before it, a minus sign first if below zero.
#[verifier::external_body]
fn outside_text(value: Decimal) -> (text: String)
    requires
        value@.fits(),
    ensures
        text@ == value@.text(),
{
    rust_decimal::Decimal::from_i128_with_scale(value.mantissa, value.scale).to_string()
}

/// Calls `rust_decimal::Decimal::from_str_exact`, which takes a sign, digits, one point and `_`
/// behind digits, and fails rather than round.
#[verifier::external_body]
fn outside_parse(text: &str) -> (value: Option<Decimal>)
    ensures
        number_in(value) == parsed(text@),
{
    let value = rust_decimal::Decimal::from_str_exact(text).ok();
    value.map(|n| Decimal { mantissa: n.mantissa(), scale: n.scale() })
}

impl Decimal {
    /// The mantissa has at most 96 bits and there are at most 28 decimal places.
    #[verifier::type_invariant]
    spec fn in_range(self) -> bool {
        self@.fits()
    }

    /// Zero.
    pub fn zero() -> (value: Decimal)
        ensures
            value@ == zero(),
    {
        Decimal { mantissa: 0, scale: 0 }
    }

    /// The decimal `mantissa / 10^scale`, if it can be held.
    pub fn from_parts(mantissa: i128, scale: u32) -> (value: Option<Decimal>)
        ensures
            ({
                let number = Number { mantissa: mantissa as int, scale: scale as nat };
                number_in(value) == (if number.fits() {
                    Some(number)
                } else {
                    None
                })
            }),
    {
        if -MAX_MANTISSA <= mantissa && mantissa <= MAX_MANTISSA && scale <= MAX_SCALE {
            Some(Decimal { mantissa, scale })
        } else {
            None
        }
    }

    /// The digits, without the decimal point.
    pub fn mantissa(self) -> (mantissa: i128)
        ensures
            mantissa == self@.mantissa,
            self@.fits(),
    {
        proof {
            use_type_invariant(self);
        }
        self.mantissa
    }

    /// The number of decimal places.
    pub fn scale(self) -> (scale: u32)
        ensures
            scale == self@.scale,
            self@.fits(),
    {
        proof {
            use_type_invariant(self);
        }
        self.scale
    }

    /// The number is below zero.
    pub fn is_sign_negative(self) -> (negative: bool)
        ensures
            negative == (self@.mantissa < 0),
    {
        self.mantissa < 0
    }

    /// The sum of two decimals, or nothing where it is out of range.
    pub fn checked_add(self, other: Decimal) -> (total: Option<Decimal>)
        ensures
            number_in(total) == sum(self@, other@),
            total matches Some(total) ==> total@.scale <= wider(self@, other@),
    {
        proof {
            use_type_invariant(self);
            use_type_invariant(other);
            a_held_number_fits(exact_sum(self@, other@));
        }
        outside_add(self, other)
    }

    /// The difference of two decimals, or nothing where it is out of range.
    pub fn checked_sub(self, other: Decimal) -> (rest: Option<Decimal>)
        ensures
            number_in(rest) == difference(self@, other@),
            rest matches Some(rest) ==> rest@.scale <= wider(self@, other@),
    {
        proof {
            use_type_invariant(self);
            use_type_invariant(other);
            a_held_number_fits(exact_difference(self@, other@));
        }
        outside_sub(self, other)
    }

    /// The sum of two decimals, or the largest or the smallest decimal where it is out of
    /// range, by the sign of the first.
    pub fn saturating_add(self, other: Decimal) -> (total: Decimal)
        ensures
            total@ == (match sum(self@, other@) {
                Some(number) => number,
                None => Number {
                    mantissa: if self@.mantissa < 0 {
                        -MAX_MANTISSA
                    } else {
                        MAX_MANTISSA as int
                    },
                    scale: 0,
                },
            }),
            total@.scale <= wider(self@, other@),
    {
        match self.checked_add(other) {
            Some(total) => total,
            None => if self.mantissa < 0 {
                Decimal { mantissa: -MAX_MANTISSA, scale: 0 }
            } else {
                Decimal { mantissa: MAX_MANTISSA, scale: 0 }
            },
        }
    }

    /// The value is below that of `other`.
    pub fn less_than(self, other: Decimal) -> (less: bool)
        ensures
            less == (self@.value() < other@.value()),
    {
        proof {
            use_type_invariant(self);
            use_type_invariant(other);
        }
        outside_less(self, other)
    }

    /// The decimal that a text denotes, never rounded.
    pub fn from_str_exact(text: &str) -> (value: Option<Decimal>)
        ensures
            number_in(value) == parsed(text@),
    {
        outside_parse(text)
    }

    /// The decimal as text, with as many decimal places as it has.
    pub fn to_string(&self) -> (text: String)
        ensures
            text@ == self@.text(),
    {
        proof {
            use_type_invariant(self);
        }
        outside_text(*self)
    }
}

impl PartialEq for Decimal {
    fn eq(&self, other: &Decimal) -> (equal: bool) {
        proof {
            use_type_invariant(self);
            use_type_invariant(other);
        }
        outside_equal(*self, *other)
    }
}

impl vstd::std_specs::cmp::PartialEqSpecImpl for Decimal {
    open spec fn obeys_eq_spec() -> bool {
        true
    }

    open spec fn eq_spec(&self, other: &Decimal) -> bool {
        self@.value() == other@.value()
    }
}

impl Eq for Decimal {
}

impl PartialOrd for Decimal {
    fn partial_cmp(&self, other: &Decimal) -> (order: Option<Ordering>) {
        if self.less_than(*other) {
            Some(Ordering::Less)
        } else if *self == *other {
            Some(Ordering::Equal)
        } else {
            Some(Ordering::Greater)
        }
    }
}

impl vstd::std_specs::cmp::PartialOrdSpecImpl for Decimal {
    open spec fn obeys_partial_cmp_spec() -> bool {
        true
    }

    open spec fn partial_cmp_spec(&self, other: &Decimal) -> Option<Ordering> {
        if self@.value() < other@.value() {
            Some(Ordering::Less)
        } else if self@.value() == other@.value() {
            Some(Ordering::Equal)
        } else {
            Some(Ordering::Greater)
        }
    }
}

/// What stands for a number can be held, has no more decimal places, and is on the same side of
/// zero.
pub proof fn a_held_number_fits(exact: Number)
    requires
        exact.scale <= MAX_SCALE,
    ensures
        held_as(exact) matches Some(n) ==> {
            &&& n.fits()
            &&& n.scale <= exact.scale
            &&& exact.mantissa >= 0 ==> n.mantissa >= 0
            &&& exact.mantissa <= 0 ==> n.mantissa <= 0
        },
{
    a_shortened_number_fits(exact, 1);
}

proof fn a_shortened_number_fits(exact: Number, dropped: nat)
    requires
        exact.scale <= MAX_SCALE,
    ensures
        shortened(exact, dropped) matches Some(n) ==> {
            &&& n.fits()
            &&& n.scale + dropped <= exact.scale
            &&& exact.mantissa >= 0 ==> n.mantissa >= 0
            &&& exact.mantissa < 0 ==> n.mantissa <= 0
        },
    decreases exact.scale + 1 - dropped,
{
    if dropped <= exact.scale {
        a_shortened_number_fits(exact, dropped + 1);
    }
}

/// A number whose value lies between the smallest and the largest decimal is never lost: at
/// worst it is rounded to a whole number.
pub proof fn a_number_in_range_is_held(exact: Number)
    requires
        magnitude(exact.mantissa) <= MAX_MANTISSA * ten_to(exact.scale),
    ensures
        held_as(exact) is Some,
{
    if exact.scale > 0 {
        a_number_in_range_is_shortened(exact, 1);
    } else {
        assert(MAX_MANTISSA * 1 == MAX_MANTISSA);
    }
}

proof fn a_number_in_range_is_shortened(exact: Number, dropped: nat)
    requires
        magnitude(exact.mantissa) <= MAX_MANTISSA * ten_to(exact.scale),
        dropped <= exact.scale,
    ensures
        shortened(exact, dropped) is Some,
    decreases exact.scale - dropped,
{
    let size = magnitude(exact.mantissa);
    if dropped < exact.scale {
        a_number_in_range_is_shortened(exact, dropped + 1);
    } else {
        let unit = ten_to(dropped);
        powers_of_ten_multiply(dropped, 0);
        assert(half_even(size, unit) <= MAX_MANTISSA) by {
            vstd::arithmetic::div_mod::lemma_fundamental_div_mod(size as int, unit as int);
            let q = size / unit;
            let r = size % unit;
            assert(q <= MAX_MANTISSA && (q == MAX_MANTISSA ==> r == 0)) by (nonlinear_arith)
                requires
                    size == unit * q + r,
                    0 <= r,
                    unit > 0,
                    size <= MAX_MANTISSA * unit,
            ;
        }
    }
}

/// A number beyond the largest decimal by one or more is lost.
pub proof fn a_number_out_of_range_is_lost(exact: Number)
    requires
        magnitude(exact.mantissa) >= (MAX_MANTISSA + 1) * ten_to(exact.scale),
    ensures
        held_as(exact) is None,
{
    powers_of_ten_multiply(exact.scale, 0);
    assert((MAX_MANTISSA + 1) * ten_to(exact.scale) > MAX_MANTISSA) by (nonlinear_arith)
        requires
            ten_to(exact.scale) > 0,
    ;
    a_number_out_of_range_cannot_be_shortened(exact, 1);
}

proof fn a_number_out_of_range_cannot_be_shortened(exact: Number, dropped: nat)
    requires
        magnitude(exact.mantissa) >= (MAX_MANTISSA + 1) * ten_to(exact.scale),
    ensures
        shortened(exact, dropped) is None,
    decreases exact.scale + 1 - dropped,
{
    if dropped <= exact.scale {
        let size = magnitude(exact.mantissa);
        let unit = ten_to(dropped);
        let rest = ten_to((exact.scale - dropped) as nat);
        powers_of_ten_multiply(dropped, (exact.scale - dropped) as nat);
        powers_of_ten_multiply((exact.scale - dropped) as nat, 0);
        a_number_out_of_range_cannot_be_shortened(exact, dropped + 1);
        assert((MAX_MANTISSA + 1) * (unit * rest) >= (MAX_MANTISSA + 1) * unit)
            by (nonlinear_arith)
            requires
                unit > 0,
                rest > 0,
        ;
        vstd::arithmetic::div_mod::lemma_fundamental_div_mod(size as int, unit as int);
        let q = size / unit;
        let r = size % unit;
        assert(q > MAX_MANTISSA) by (nonlinear_arith)
            requires
                size == unit * q + r,
                r < unit,
                unit > 0,
                size >= (MAX_MANTISSA + 1) * unit,
        ;
    }
}

/// Without a zero at its end a number has the value that it has with it.
proof fn a_last_zero_is_worth_nothing(exact: Number)
    requires
        0 < exact.scale <= MAX_SCALE,
        exact.mantissa % 10 == 0,
    ensures
        (Number { mantissa: exact.mantissa / 10, scale: (exact.scale - 1) as nat }).value()
            == exact.value(),
{
    let unit = ten_to((MAX_SCALE - exact.scale) as nat);
    let shorter = exact.mantissa / 10;
    assert(ten_to((MAX_SCALE - (exact.scale - 1)) as nat) == 10 * unit);
    assert(shorter * (10 * unit) == (10 * shorter) * unit) by (nonlinear_arith);
}

/// What is held without loss has the value of the number itself.
pub proof fn nothing_is_lost(exact: Number)
    requires
        exact.scale <= MAX_SCALE,
    ensures
        lossless(exact) matches Some(n) ==> {
            &&& n.fits()
            &&& n.scale <= exact.scale
            &&& n.value() == exact.value()
        },
    decreases exact.scale,
{
    if exact.scale > 0 && exact.mantissa % 10 == 0 {
        a_last_zero_is_worth_nothing(exact);
        nothing_is_lost(
            Number { mantissa: exact.mantissa / 10, scale: (exact.scale - 1) as nat },
        );
    }
}

/// A number is held without loss exactly if some decimal has its value.
pub proof fn only_the_unrepresentable_is_refused(exact: Number)
    requires
        exact.scale <= MAX_SCALE,
    ensures
        lossless(exact) is Some <==> representable(exact.value()),
{
    nothing_is_lost(exact);
    if let Some(n) = lossless(exact) {
        assert(n.fits());
    }
    if representable(exact.value()) {
        let n = choose|n: Number| #[trigger] n.fits() && n.value() == exact.value();
        the_representable_is_held(exact, n);
    }
}

/// A number with the value of some decimal is held without loss.
proof fn the_representable_is_held(exact: Number, n: Number)
    requires
        exact.scale <= MAX_SCALE,
        n.fits(),
        n.value() == exact.value(),
    ensures
        lossless(exact) is Some,
    decreases exact.scale,
{
    if magnitude(exact.mantissa) > MAX_MANTISSA {
        if n.scale >= exact.scale {
            one_value_one_mantissa(exact, n);
            let unit = ten_to((n.scale - exact.scale) as nat);
            powers_of_ten_multiply((n.scale - exact.scale) as nat, 0);
            assert(magnitude(exact.mantissa * unit) >= magnitude(exact.mantissa))
                by (nonlinear_arith)
                requires
                    unit >= 1,
            ;
        } else {
            one_value_one_mantissa(n, exact);
            let unit = ten_to((exact.scale - n.scale - 1) as nat);
            assert(ten_to((exact.scale - n.scale) as nat) == 10 * unit);
            assert(n.mantissa * (10 * unit) == 10 * (n.mantissa * unit)) by (nonlinear_arith);
            a_last_zero_is_worth_nothing(exact);
            the_representable_is_held(
                Number { mantissa: exact.mantissa / 10, scale: (exact.scale - 1) as nat },
                n,
            );
        }
    }
}

/// No decimal lies beyond the largest or the smallest one.
pub proof fn every_decimal_is_in_range(value: int)
    requires
        representable(value),
    ensures
        magnitude(value) <= MAX_MANTISSA * ten_to(MAX_SCALE as nat),
{
    let n = choose|n: Number| #[trigger] n.fits() && n.value() == value;
    let unit = ten_to((MAX_SCALE - n.scale) as nat);
    powers_of_ten_multiply((MAX_SCALE - n.scale) as nat, n.scale);
    powers_of_ten_multiply(n.scale, 0);
    assert(magnitude(n.mantissa * unit) <= MAX_MANTISSA * (unit * ten_to(n.scale)))
        by (nonlinear_arith)
        requires
            magnitude(n.mantissa) <= MAX_MANTISSA,
            unit > 0,
            ten_to(n.scale) > 0,
    ;
}

/// Numbers of one value have one mantissa once they are written with the same scale.
proof fn one_value_one_mantissa(short: Number, long: Number)
    requires
        short.scale <= long.scale <= MAX_SCALE,
        short.value() == long.value(),
    ensures
        short.at_scale(long.scale) == long.mantissa,
{
    let unit = ten_to((MAX_SCALE - long.scale) as nat);
    let rescaled = short.at_scale(long.scale);
    rescaling_in_two_goes(short, long.scale, MAX_SCALE as nat);
    powers_of_ten_multiply((MAX_SCALE - long.scale) as nat, 0);
    assert(rescaled == long.mantissa) by (nonlinear_arith)
        requires
            rescaled * unit == long.mantissa * unit,
            unit > 0,
    ;
}

/// A number is held without loss exactly if what stands for it has its value.
pub proof fn rounding_is_the_only_loss(exact: Number)
    requires
        exact.scale <= MAX_SCALE,
    ensures
        lossless(exact) == match held_as(exact) {
            Some(n) => if n.value() == exact.value() {
                Some(n)
            } else {
                None
            },
            None => None,
        },
    decreases exact.scale,
{
    if magnitude(exact.mantissa) > MAX_MANTISSA && exact.scale > 0 {
        if exact.mantissa % 10 == 0 {
            let shorter = Number {
                mantissa: exact.mantissa / 10,
                scale: (exact.scale - 1) as nat,
            };
            a_last_zero_is_worth_nothing(exact);
            rounding_is_the_only_loss(shorter);
            a_last_zero_is_dropped_first(exact, 0);
            a_last_zero_is_dropped_first(exact, 1);
            let size = magnitude(shorter.mantissa);
            assert(half_even(size, ten_to(0)) == size);
        } else {
            a_shortened_number_fits(exact, 1);
            if let Some(n) = shortened(exact, 1) {
                if n.value() == exact.value() {
                    one_value_one_mantissa(n, exact);
                    let unit = ten_to((exact.scale - n.scale - 1) as nat);
                    assert(ten_to((exact.scale - n.scale) as nat) == 10 * unit);
                    assert(n.mantissa * (10 * unit) == 10 * (n.mantissa * unit))
                        by (nonlinear_arith);
                }
            }
        }
    }
}

/// Dropping a zero at the end and then more decimal places is dropping all of them at once.
proof fn a_last_zero_is_dropped_first(exact: Number, dropped: nat)
    requires
        exact.scale > 0,
        exact.mantissa % 10 == 0,
    ensures
        shortened(exact, dropped + 1) == shortened(
            Number { mantissa: exact.mantissa / 10, scale: (exact.scale - 1) as nat },
            dropped,
        ),
    decreases exact.scale + 1 - dropped,
{
    let shorter = Number { mantissa: exact.mantissa / 10, scale: (exact.scale - 1) as nat };
    if dropped < exact.scale {
        let size = magnitude(shorter.mantissa);
        let unit = ten_to(dropped);
        powers_of_ten_multiply(dropped, 0);
        assert(magnitude(exact.mantissa) == 10 * size);
        assert(ten_to(dropped + 1) == 10 * unit);
        vstd::arithmetic::div_mod::lemma_fundamental_div_mod(size as int, unit as int);
        let q = (size / unit) as int;
        let r = (size % unit) as int;
        assert(10 * size == (10 * unit) * q + 10 * r) by (nonlinear_arith)
            requires
                size == unit * q + r,
        ;
        vstd::arithmetic::div_mod::lemma_fundamental_div_mod_converse(
            (10 * size) as int,
            (10 * unit) as int,
            q,
            10 * r,
        );
        a_last_zero_is_dropped_first(exact, dropped + 1);
    }
}

/// A text without `_` stays as it is.
pub proof fn nothing_to_separate(text: Seq<char>)
    requires
        forall|i: int| 0 <= i < text.len() ==> #[trigger] text[i] != '_',
    ensures
        unseparated(text) == text,
    decreases text.len(),
{
    if text.len() > 0 {
        nothing_to_separate(text.drop_last());
        assert(text.drop_last().push(text.last()) =~= text);
    } else {
        assert(text =~= Seq::empty());
    }
}

/// Powers of ten multiply by adding their exponents.
pub proof fn powers_of_ten_multiply(a: nat, b: nat)
    ensures
        ten_to(a + b) == ten_to(a) * ten_to(b),
        ten_to(a) > 0,
    decreases a,
{
    if a > 0 {
        powers_of_ten_multiply((a - 1) as nat, b);
        assert(ten_to(a + b) == 10 * ten_to((a - 1 + b) as nat));
        assert(10 * (ten_to((a - 1) as nat) * ten_to(b)) == (10 * ten_to((a - 1) as nat)) * ten_to(
            b,
        )) by (nonlinear_arith);
    } else {
        assert(ten_to(a) * ten_to(b) == ten_to(b)) by (nonlinear_arith)
            requires
                ten_to(a) == 1,
        ;
    }
}

/// A number can be written with more decimal places in one go or in two.
pub proof fn rescaling_in_two_goes(n: Number, near: nat, far: nat)
    requires
        n.scale <= near <= far,
    ensures
        (Number { mantissa: n.at_scale(near), scale: near }).at_scale(far) == n.at_scale(far),
{
    let more = (near - n.scale) as nat;
    let rest = (far - near) as nat;
    powers_of_ten_multiply(more, rest);
    assert((n.mantissa * ten_to(more)) * ten_to(rest) == n.mantissa * (ten_to(more) * ten_to(rest)))
        by (nonlinear_arith);
}

/// A sum that has not been rounded is the sum of the mantissas, whatever scale both numbers
/// are written with.
pub proof fn exact_sums_add_up(a: Number, b: Number, scale: nat)
    requires
        a.scale <= scale,
        b.scale <= scale,
    ensures
        exact_sum(a, b).at_scale(scale) == a.at_scale(scale) + b.at_scale(scale),
        exact_sum(a, b).scale <= wider(a, b),
{
    let near = wider(a, b);
    let unit = ten_to((scale - near) as nat);
    rescaling_in_two_goes(a, near, scale);
    rescaling_in_two_goes(b, near, scale);
    assert((a.at_scale(near) + b.at_scale(near)) * unit == a.at_scale(near) * unit + b.at_scale(
        near,
    ) * unit) by (nonlinear_arith);
    assert(0 * ten_to((scale - a.scale) as nat) == 0);
    assert(0 * ten_to((scale - b.scale) as nat) == 0);
}

/// A difference that has not been rounded is the difference of the mantissas, whatever scale
/// both numbers are written with.
pub proof fn exact_differences_add_up(a: Number, b: Number, scale: nat)
    requires
        a.scale <= scale,
        b.scale <= scale,
    ensures
        exact_difference(a, b).at_scale(scale) == a.at_scale(scale) - b.at_scale(scale),
        exact_difference(a, b).scale <= wider(a, b),
{
    let near = wider(a, b);
    let unit = ten_to((scale - near) as nat);
    rescaling_in_two_goes(a, near, scale);
    rescaling_in_two_goes(b, near, scale);
    assert((a.at_scale(near) - b.at_scale(near)) * unit == a.at_scale(near) * unit - b.at_scale(
        near,
    ) * unit) by (nonlinear_arith);
    assert(0 * ten_to((scale - a.scale) as nat) == 0);
    assert((-b.mantissa) * ten_to((scale - b.scale) as nat) == -(b.mantissa * ten_to(
        (scale - b.scale) as nat,
    ))) by (nonlinear_arith);
}

/// The first point of a text that starts with digits and a point is that one.
pub proof fn the_point_follows_the_digits(whole: Seq<char>, fraction: Seq<char>)
    requires
        digits::all_digits(whole),
    ensures
        point_in(whole + seq!['.'] + fraction) == whole.len(),
        before_point(whole + seq!['.'] + fraction) == whole,
        after_point(whole + seq!['.'] + fraction) == fraction,
    decreases whole.len(),
{
    let text = whole + seq!['.'] + fraction;
    if whole.len() > 0 {
        the_point_follows_the_digits(whole.skip(1), fraction);
        assert(digits::is_digit(whole[0]));
        assert(text[0] == whole[0]);
        assert(text.skip(1) =~= whole.skip(1) + seq!['.'] + fraction);
    } else {
        assert(text[0] == '.');
    }
    assert(text.take(whole.len() as int) =~= whole);
    assert(text.skip(whole.len() as int + 1) =~= fraction);
}

/// Among digits alone there is no point.
proof fn there_is_no_point_among_digits(text: Seq<char>)
    requires
        digits::all_digits(text),
    ensures
        point_in(text) == text.len(),
    decreases text.len(),
{
    if text.len() > 0 {
        assert(digits::is_digit(text[0]));
        there_is_no_point_among_digits(text.skip(1));
    }
}

/// A number that is written out and read again is the same number, down to its decimal places.
pub proof fn a_written_number_reads_back(n: Number)
    requires
        n.fits(),
    ensures
        parsed(n.text()) == Some(n),
{
    let size = magnitude(n.mantissa);
    let written = n.all_written();
    let whole = n.whole_digits();
    let fraction = n.fraction_digits();
    let body = unsigned(n.text());
    digits::digits_denote_their_number(size);
    assert(digits::all_digits(written));
    assert(whole[0] == written[0]);
    assert(digits::is_digit(written[0]));
    assert(whole + fraction =~= written);
    if digits::digits(size).len() < n.scale + 1 {
        digits::leading_zeros_denote_nothing(
            (n.scale + 1 - digits::digits(size).len()) as nat,
            digits::digits(size),
        );
    }
    assert(digits::digits_value(written) == size);
    if n.scale == 0 {
        assert(body =~= whole);
        there_is_no_point_among_digits(whole);
        assert(before_point(whole) =~= whole);
        assert(fraction =~= Seq::empty());
    } else {
        assert(body =~= whole + seq!['.'] + fraction);
        the_point_follows_the_digits(whole, fraction);
    }
    assert forall|i: int| 0 <= i < body.len() implies body[i] != '_' by {
        if i < whole.len() {
            assert(digits::is_digit(written[i]));
        } else if i > whole.len() {
            assert(digits::is_digit(written[i - 1]));
        }
    }
    nothing_to_separate(body);
}

} // verus!
