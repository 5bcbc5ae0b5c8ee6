//! Validated monetary amounts.

use crate::decimal;
use crate::decimal::{Decimal, Number};
use crate::error::{RecordError, Rejection};
use std::cmp::Ordering;
use vstd::prelude::*;

verus! {

/// The number of decimal places the engine works in.
pub const SCALE: u32 = 4;

/// A monetary amount that has been checked at the input boundary: a valid decimal, not
/// negative, and no finer than [`SCALE`] decimal places.
///
/// Constructing one is the only way into the engine, so no code past the boundary has to
/// wonder whether a value is well-formed.
#[derive(Clone, Copy, Debug)]
pub struct Amount {
    value: Decimal,
}

impl View for Amount {
    type V = Number;

    closed spec fn view(&self) -> Number {
        self.value@
    }
}

/// `number` may be an amount.
pub open spec fn is_amount(number: Number) -> bool {
    number.fits() && 0 <= number.mantissa && number.scale <= SCALE
}

/// What becomes of the text of an amount that denotes `number`: the amount, or the first
/// objection to it.
pub open spec fn validated(raw: Seq<char>, number: Option<Number>) -> Result<Number, Rejection> {
    match number {
        None => Err(Rejection::MalformedAmount(raw)),
        Some(number) => if number.mantissa < 0 {
            Err(Rejection::NegativeAmount(raw))
        } else if number.scale > SCALE {
            Err(Rejection::ExcessPrecision(raw))
        } else {
            Ok(number)
        },
    }
}

/// The views of what parsing an amount gives back.
pub open spec fn outcome(result: Result<Amount, RecordError>) -> Result<Number, Rejection> {
    match result {
        Ok(amount) => Ok(amount@),
        Err(error) => Err(error@),
    }
}

impl Amount {
    #[verifier::type_invariant]
    spec fn valid(self) -> bool {
        is_amount(self.value@)
    }

    /// Parses and validates an amount as written in the input.
    pub fn parse(raw: &str) -> (result: Result<Amount, RecordError>)
        ensures
            outcome(result) == validated(raw@, decimal::parsed(raw@)),
    {
        // Parsing refuses to round, but it happily accepts more precision than is allowed,
        // so the scale is checked separately rather than silently rescaled.
        Amount::validate(raw, Decimal::from_str_exact(raw))
    }

    /// Validates the value that the text of an amount denotes.
    pub fn validate(raw: &str, value: Option<Decimal>) -> (result: Result<Amount, RecordError>)
        ensures
            outcome(result) == validated(raw@, decimal::number_in(value)),
    {
        match value {
            None => Err(RecordError::MalformedAmount(raw.to_owned())),
            Some(value) => if value.is_sign_negative() {
                Err(RecordError::NegativeAmount(raw.to_owned()))
            } else if value.scale() > SCALE {
                Err(RecordError::ExcessPrecision(raw.to_owned()))
            } else {
                Ok(Amount { value })
            },
        }
    }

    /// The underlying decimal.
    pub fn value(self) -> (value: Decimal)
        ensures
            value@ == self@,
            is_amount(self@),
    {
        proof {
            use_type_invariant(self);
        }
        self.value
    }

    /// The amount as text, with as many decimal places as it was written with.
    pub fn to_string(&self) -> (text: String)
        ensures
            text@ == self@.text(),
    {
        self.value.to_string()
    }
}

impl PartialEq for Amount {
    fn eq(&self, other: &Amount) -> (equal: bool) {
        self.value == other.value
    }
}

impl vstd::std_specs::cmp::PartialEqSpecImpl for Amount {
    open spec fn obeys_eq_spec() -> bool {
        true
    }

    open spec fn eq_spec(&self, other: &Amount) -> bool {
        self@.value() == other@.value()
    }
}

impl Eq for Amount {
}

impl PartialOrd for Amount {
    fn partial_cmp(&self, other: &Amount) -> (order: Option<Ordering>) {
        if self.value.less_than(other.value) {
            Some(Ordering::Less)
        } else if *self == *other {
            Some(Ordering::Equal)
        } else {
            Some(Ordering::Greater)
        }
    }
}

impl vstd::std_specs::cmp::PartialOrdSpecImpl for Amount {
    open spec fn obeys_partial_cmp_spec() -> bool {
        true
    }

    open spec fn partial_cmp_spec(&self, other: &Amount) -> Option<Ordering> {
        if self@.value() < other@.value() {
            Some(Ordering::Less)
        } else if self@.value() == other@.value() {
            Some(Ordering::Equal)
        } else {
            Some(Ordering::Greater)
        }
    }
}

} // verus!
