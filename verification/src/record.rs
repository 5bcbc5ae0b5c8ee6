//! The input record: what a CSV row looks like, and the validated transaction it becomes.

use crate::amount;
use crate::amount::Amount;
use crate::decimal;
use crate::decimal::Number;
use crate::error::{RecordError, Rejection};
use vstd::prelude::*;

verus! {

/// A row exactly as it appears in the input.
///
/// The string fields borrow from the reader's record buffer, so parsing a row allocates
/// nothing. `kind` and `amount` are kept as text on purpose: validating them here, with
/// our own errors, gives far better diagnostics than a derived deserializer would.
#[derive(Debug)]
pub struct RawRecord<'a> {
    pub kind: &'a str,
    pub client: u16,
    pub tx: u32,
    /// Absent for dispute, resolve and chargeback rows, whether the column is empty or
    /// missing entirely.
    pub amount: Option<&'a str>,
}

/// A validated transaction, ready to apply.
#[derive(Clone, Copy, Debug)]
pub enum Transaction {
    Deposit { client: u16, tx: u32, amount: Amount },
    Withdrawal { client: u16, tx: u32, amount: Amount },
    Dispute { client: u16, tx: u32 },
    Resolve { client: u16, tx: u32 },
    Chargeback { client: u16, tx: u32 },
}

/// What a [`Transaction`] asks for, with its amount as a number.
pub enum Instruction {
    Deposit { client: u16, tx: u32, amount: Number },
    Withdrawal { client: u16, tx: u32, amount: Number },
    Dispute { client: u16, tx: u32 },
    Resolve { client: u16, tx: u32 },
    Chargeback { client: u16, tx: u32 },
}

impl Instruction {
    /// The client it belongs to. Every instruction names exactly one.
    pub open spec fn client(self) -> u16 {
        match self {
            Instruction::Deposit { client, .. } => client,
            Instruction::Withdrawal { client, .. } => client,
            Instruction::Dispute { client, .. } => client,
            Instruction::Resolve { client, .. } => client,
            Instruction::Chargeback { client, .. } => client,
        }
    }

    /// The ID of the transaction that it is, or that it refers to.
    pub open spec fn tx(self) -> u32 {
        match self {
            Instruction::Deposit { tx, .. } => tx,
            Instruction::Withdrawal { tx, .. } => tx,
            Instruction::Dispute { tx, .. } => tx,
            Instruction::Resolve { tx, .. } => tx,
            Instruction::Chargeback { tx, .. } => tx,
        }
    }

    /// The two ask for the same thing; amounts are compared by their value.
    pub open spec fn same_as(self, other: Instruction) -> bool {
        match (self, other) {
            (
                Instruction::Deposit { client, tx, amount },
                Instruction::Deposit { client: client2, tx: tx2, amount: amount2 },
            ) => client == client2 && tx == tx2 && amount.value() == amount2.value(),
            (
                Instruction::Withdrawal { client, tx, amount },
                Instruction::Withdrawal { client: client2, tx: tx2, amount: amount2 },
            ) => client == client2 && tx == tx2 && amount.value() == amount2.value(),
            _ => self == other,
        }
    }
}

impl View for Transaction {
    type V = Instruction;

    open spec fn view(&self) -> Instruction {
        match *self {
            Transaction::Deposit { client, tx, amount } => Instruction::Deposit {
                client,
                tx,
                amount: amount@,
            },
            Transaction::Withdrawal { client, tx, amount } => Instruction::Withdrawal {
                client,
                tx,
                amount: amount@,
            },
            Transaction::Dispute { client, tx } => Instruction::Dispute { client, tx },
            Transaction::Resolve { client, tx } => Instruction::Resolve { client, tx },
            Transaction::Chargeback { client, tx } => Instruction::Chargeback { client, tx },
        }
    }
}

/// `c` with an ASCII capital made small.
pub open spec fn small(c: char) -> char {
    if 'A' <= c && c <= 'Z' {
        ((c as int) + 32) as char
    } else {
        c
    }
}

/// `text` with its ASCII capitals made small.
pub open spec fn in_small(text: Seq<char>) -> Seq<char> {
    text.map_values(|c: char| small(c))
}

/// `str::eq_ignore_ascii_case`: the two texts are the same once the ASCII capitals of both
/// are made small.
pub assume_specification[ str::eq_ignore_ascii_case ](text: &str, other: &str) -> (equal: bool)
    ensures
        equal == (in_small(text@) == in_small(other@)),
;

/// What the amount column of a deposit or withdrawal becomes. It is mandatory for these.
pub open spec fn required(amount: Option<Seq<char>>, kind: Seq<char>) -> Result<
    Number,
    Rejection,
> {
    match amount {
        Some(raw) => if raw.len() > 0 {
            amount::validated(raw, decimal::parsed(raw))
        } else {
            Err(Rejection::MissingAmount(kind))
        },
        None => Err(Rejection::MissingAmount(kind)),
    }
}

/// What a row becomes. The type is matched whatever its capitals; an amount is read for
/// deposits and withdrawals alone.
pub open spec fn interpreted(
    kind: Seq<char>,
    client: u16,
    tx: u32,
    amount: Option<Seq<char>>,
) -> Result<Instruction, Rejection> {
    if in_small(kind) == in_small("deposit"@) {
        match required(amount, "deposit"@) {
            Ok(amount) => Ok(Instruction::Deposit { client, tx, amount }),
            Err(error) => Err(error),
        }
    } else if in_small(kind) == in_small("withdrawal"@) {
        match required(amount, "withdrawal"@) {
            Ok(amount) => Ok(Instruction::Withdrawal { client, tx, amount }),
            Err(error) => Err(error),
        }
    } else if in_small(kind) == in_small("dispute"@) {
        Ok(Instruction::Dispute { client, tx })
    } else if in_small(kind) == in_small("resolve"@) {
        Ok(Instruction::Resolve { client, tx })
    } else if in_small(kind) == in_small("chargeback"@) {
        Ok(Instruction::Chargeback { client, tx })
    } else {
        Err(Rejection::UnknownType(kind))
    }
}

/// The characters of an optional text.
pub open spec fn text_in(text: Option<&str>) -> Option<Seq<char>> {
    match text {
        Some(text) => Some(text@),
        None => None,
    }
}

/// The views of what validating a row gives back.
pub open spec fn outcome(result: Result<Transaction, RecordError>) -> Result<
    Instruction,
    Rejection,
> {
    match result {
        Ok(transaction) => Ok(transaction@),
        Err(error) => Err(error@),
    }
}

impl Transaction {
    /// The client this transaction belongs to.
    ///
    /// Every variant carries one, which is what makes the whole workload partitionable:
    /// no transaction can reach across clients, so routing by this value gives each shard a
    /// set of accounts nothing else can touch.
    pub fn client(&self) -> (client: u16)
        ensures
            client == self@.client(),
    {
        match *self {
            Transaction::Deposit { client, .. } => client,
            Transaction::Withdrawal { client, .. } => client,
            Transaction::Dispute { client, .. } => client,
            Transaction::Resolve { client, .. } => client,
            Transaction::Chargeback { client, .. } => client,
        }
    }

    /// The ID of the transaction that this is, or that it refers to.
    pub fn tx(&self) -> (tx: u32)
        ensures
            tx == self@.tx(),
    {
        match *self {
            Transaction::Deposit { tx, .. } => tx,
            Transaction::Withdrawal { tx, .. } => tx,
            Transaction::Dispute { tx, .. } => tx,
            Transaction::Resolve { tx, .. } => tx,
            Transaction::Chargeback { tx, .. } => tx,
        }
    }

    /// Validates a raw row.
    ///
    /// Types are matched case-insensitively: dropping a real movement of money over the
    /// capitalisation a partner used would be the worse error.
    pub fn from_raw(raw: &RawRecord<'_>) -> (result: Result<Transaction, RecordError>)
        ensures
            outcome(result) == interpreted(raw.kind@, raw.client, raw.tx, text_in(raw.amount)),
    {
        let kind = raw.kind;
        let client: u16 = raw.client;
        let tx: u32 = raw.tx;
        if kind.eq_ignore_ascii_case("deposit") {
            match required_amount(raw.amount, "deposit") {
                Ok(amount) => Ok(Transaction::Deposit { client, tx, amount }),
                Err(error) => Err(error),
            }
        } else if kind.eq_ignore_ascii_case("withdrawal") {
            match required_amount(raw.amount, "withdrawal") {
                Ok(amount) => Ok(Transaction::Withdrawal { client, tx, amount }),
                Err(error) => Err(error),
            }
        } else if kind.eq_ignore_ascii_case("dispute") {
            Ok(Transaction::Dispute { client, tx })
        } else if kind.eq_ignore_ascii_case("resolve") {
            Ok(Transaction::Resolve { client, tx })
        } else if kind.eq_ignore_ascii_case("chargeback") {
            Ok(Transaction::Chargeback { client, tx })
        } else {
            Err(RecordError::UnknownType(kind.to_owned()))
        }
    }
}

/// An amount is mandatory for deposits and withdrawals; the other types carry none, and
/// any value in the column is ignored.
fn required_amount(amount: Option<&str>, kind: &'static str) -> (result: Result<
    Amount,
    RecordError,
>)
    ensures
        amount::outcome(result) == required(text_in(amount), kind@),
{
    match amount {
        Some(raw) => if !raw.is_empty() {
            Amount::parse(raw)
        } else {
            Err(RecordError::MissingAmount(kind))
        },
        None => Err(RecordError::MissingAmount(kind)),
    }
}

impl PartialEq for Transaction {
    fn eq(&self, other: &Transaction) -> (equal: bool) {
        match (*self, *other) {
            (
                Transaction::Deposit { client, tx, amount },
                Transaction::Deposit { client: client2, tx: tx2, amount: amount2 },
            ) => client == client2 && tx == tx2 && amount == amount2,
            (
                Transaction::Withdrawal { client, tx, amount },
                Transaction::Withdrawal { client: client2, tx: tx2, amount: amount2 },
            ) => client == client2 && tx == tx2 && amount == amount2,
            (
                Transaction::Dispute { client, tx },
                Transaction::Dispute { client: client2, tx: tx2 },
            ) => client == client2 && tx == tx2,
            (
                Transaction::Resolve { client, tx },
                Transaction::Resolve { client: client2, tx: tx2 },
            ) => client == client2 && tx == tx2,
            (
                Transaction::Chargeback { client, tx },
                Transaction::Chargeback { client: client2, tx: tx2 },
            ) => client == client2 && tx == tx2,
            _ => false,
        }
    }
}

impl vstd::std_specs::cmp::PartialEqSpecImpl for Transaction {
    open spec fn obeys_eq_spec() -> bool {
        true
    }

    open spec fn eq_spec(&self, other: &Transaction) -> bool {
        self@.same_as(other@)
    }
}

impl Eq for Transaction {
}

/// The capitals of a type make no difference to what a row becomes. An unknown type is
/// reported as it was written.
pub proof fn capitals_make_no_difference(
    kind: Seq<char>,
    other: Seq<char>,
    client: u16,
    tx: u32,
    amount: Option<Seq<char>>,
)
    requires
        in_small(kind) == in_small(other),
    ensures
        match interpreted(kind, client, tx, amount) {
            Err(Rejection::UnknownType(written)) => written == kind && interpreted(
                other,
                client,
                tx,
                amount,
            ) == Err::<Instruction, Rejection>(Rejection::UnknownType(other)),
            outcome => interpreted(other, client, tx, amount) == outcome,
        },
{
}

/// Whatever a row holds, the transaction it becomes has the client and the ID that it names, and
/// its amount, if it has one, is not negative and has at most four decimal places.
pub proof fn a_transaction_is_well_formed(
    kind: Seq<char>,
    client: u16,
    tx: u32,
    amount: Option<Seq<char>>,
)
    ensures
        interpreted(kind, client, tx, amount) matches Ok(instruction) ==> {
            &&& instruction.client() == client
            &&& instruction.tx() == tx
            &&& match instruction {
                Instruction::Deposit { amount, .. } => amount::is_amount(amount),
                Instruction::Withdrawal { amount, .. } => amount::is_amount(amount),
                _ => true,
            }
        },
{
}

/// The amount column of a dispute, a resolve or a chargeback is not looked at.
pub proof fn a_reference_ignores_the_amount(
    kind: Seq<char>,
    client: u16,
    tx: u32,
    amount: Option<Seq<char>>,
    other: Option<Seq<char>>,
)
    requires
        interpreted(kind, client, tx, amount) matches Ok(instruction) && !(instruction is Deposit
            || instruction is Withdrawal),
    ensures
        interpreted(kind, client, tx, other) == interpreted(kind, client, tx, amount),
{
}

} // verus!
