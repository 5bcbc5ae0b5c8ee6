//! Error types.
//!
//! Errors are split in two. A [`RecordError`] concerns a single input record: the record
//! is skipped, reported to stderr, and processing continues. A [`FatalError`] means the
//! run cannot continue at all.

use crate::digits;
use vstd::prelude::*;
use vstd::string::StringExecFns;

verus! {

/// A rejected input record.
///
/// They are reported rather than silently dropped: a payments engine that discards records
/// without a trace is not auditable, and these are exactly the records that reveal a
/// misbehaving partner.
#[derive(Debug)]
pub enum RecordError {
    /// Holds what the CSV reader said.
    Malformed(String),
    UnknownType(String),
    MissingAmount(&'static str),
    MalformedAmount(String),
    NegativeAmount(String),
    ExcessPrecision(String),
    DuplicateTx { client: u16, tx: u32 },
    /// Covers all three ways a reference can fail to resolve: the transaction never
    /// existed, it belongs to a different client, or it has already been settled. They
    /// are deliberately indistinguishable, so that one client cannot probe for another
    /// client's transaction IDs.
    UnknownTx { client: u16, tx: u32 },
    AlreadyDisputed { client: u16, tx: u32 },
    NotDisputed { client: u16, tx: u32 },
    InsufficientFunds { client: u16, available: String, requested: String },
    AccountLocked(u16),
    Overflow(u16),
}

/// What a [`RecordError`] says, with its texts as sequences of characters.
pub enum Rejection {
    Malformed(Seq<char>),
    UnknownType(Seq<char>),
    MissingAmount(Seq<char>),
    MalformedAmount(Seq<char>),
    NegativeAmount(Seq<char>),
    ExcessPrecision(Seq<char>),
    DuplicateTx { client: u16, tx: u32 },
    UnknownTx { client: u16, tx: u32 },
    AlreadyDisputed { client: u16, tx: u32 },
    NotDisputed { client: u16, tx: u32 },
    InsufficientFunds { client: u16, available: Seq<char>, requested: Seq<char> },
    AccountLocked(u16),
    Overflow(u16),
}

impl View for RecordError {
    type V = Rejection;

    open spec fn view(&self) -> Rejection {
        match *self {
            RecordError::Malformed(cause) => Rejection::Malformed(cause@),
            RecordError::UnknownType(kind) => Rejection::UnknownType(kind@),
            RecordError::MissingAmount(kind) => Rejection::MissingAmount(kind@),
            RecordError::MalformedAmount(raw) => Rejection::MalformedAmount(raw@),
            RecordError::NegativeAmount(raw) => Rejection::NegativeAmount(raw@),
            RecordError::ExcessPrecision(raw) => Rejection::ExcessPrecision(raw@),
            RecordError::DuplicateTx { client, tx } => Rejection::DuplicateTx { client, tx },
            RecordError::UnknownTx { client, tx } => Rejection::UnknownTx { client, tx },
            RecordError::AlreadyDisputed { client, tx } => Rejection::AlreadyDisputed {
                client,
                tx,
            },
            RecordError::NotDisputed { client, tx } => Rejection::NotDisputed { client, tx },
            RecordError::InsufficientFunds { client, available, requested } =>
                Rejection::InsufficientFunds {
                client,
                available: available@,
                requested: requested@,
            },
            RecordError::AccountLocked(client) => Rejection::AccountLocked(client),
            RecordError::Overflow(client) => Rejection::Overflow(client),
        }
    }
}

impl Rejection {
    /// The message that reports the rejection.
    pub open spec fn message(self) -> Seq<char> {
        match self {
            Rejection::Malformed(cause) => "could not be parsed as a CSV record: "@ + cause,
            Rejection::UnknownType(kind) => "unrecognised transaction type `"@ + kind + "`"@,
            Rejection::MissingAmount(kind) => "a "@ + kind + " requires an amount"@,
            Rejection::MalformedAmount(raw) => "amount `"@ + raw
                + "` is not a valid decimal number"@,
            Rejection::NegativeAmount(raw) => "amount `"@ + raw + "` is negative"@,
            Rejection::ExcessPrecision(raw) => "amount `"@ + raw
                + "` has more than four decimal places"@,
            Rejection::DuplicateTx { client, tx } => "client "@ + digits::digits(client as nat)
                + " already has a transaction "@ + digits::digits(tx as nat),
            Rejection::UnknownTx { client, tx } => "client "@ + digits::digits(client as nat)
                + " has no disputable transaction "@ + digits::digits(tx as nat),
            Rejection::AlreadyDisputed { client, tx } => "transaction "@ + digits::digits(
                tx as nat,
            ) + " of client "@ + digits::digits(client as nat) + " is already under dispute"@,
            Rejection::NotDisputed { client, tx } => "transaction "@ + digits::digits(tx as nat)
                + " of client "@ + digits::digits(client as nat) + " is not under dispute"@,
            Rejection::InsufficientFunds { client, available, requested } => "client "@
                + digits::digits(client as nat) + " has "@ + available
                + " available, cannot withdraw "@ + requested,
            Rejection::AccountLocked(client) => "client "@ + digits::digits(client as nat)
                + " is locked"@,
            Rejection::Overflow(client) => "would overflow the balances of client "@
                + digits::digits(client as nat),
        }
    }
}

impl RecordError {
    /// The message that reports the rejection.
    pub fn message(&self) -> (text: String)
        ensures
            text@ == self@.message(),
    {
        match self {
            RecordError::Malformed(cause) => {
                let mut text = "could not be parsed as a CSV record: ".to_owned();
                text.append(cause.as_str());
                text
            },
            RecordError::UnknownType(kind) => quoted(
                "unrecognised transaction type `",
                kind.as_str(),
                "`",
            ),
            RecordError::MissingAmount(kind) => quoted("a ", kind, " requires an amount"),
            RecordError::MalformedAmount(raw) => quoted(
                "amount `",
                raw.as_str(),
                "` is not a valid decimal number",
            ),
            RecordError::NegativeAmount(raw) => quoted("amount `", raw.as_str(), "` is negative"),
            RecordError::ExcessPrecision(raw) => quoted(
                "amount `",
                raw.as_str(),
                "` has more than four decimal places",
            ),
            RecordError::DuplicateTx { client, tx } => two_numbers(
                "client ",
                *client as u64,
                " already has a transaction ",
                *tx as u64,
            ),
            RecordError::UnknownTx { client, tx } => two_numbers(
                "client ",
                *client as u64,
                " has no disputable transaction ",
                *tx as u64,
            ),
            RecordError::AlreadyDisputed { client, tx } => {
                let mut text = two_numbers(
                    "transaction ",
                    *tx as u64,
                    " of client ",
                    *client as u64,
                );
                text.append(" is already under dispute");
                text
            },
            RecordError::NotDisputed { client, tx } => {
                let mut text = two_numbers(
                    "transaction ",
                    *tx as u64,
                    " of client ",
                    *client as u64,
                );
                text.append(" is not under dispute");
                text
            },
            RecordError::InsufficientFunds { client, available, requested } => {
                let mut text = "client ".to_owned();
                digits::push_number(&mut text, *client as u64);
                text.append(" has ");
                text.append(available.as_str());
                text.append(" available, cannot withdraw ");
                text.append(requested.as_str());
                text
            },
            RecordError::AccountLocked(client) => {
                let mut text = "client ".to_owned();
                digits::push_number(&mut text, *client as u64);
                text.append(" is locked");
                text
            },
            RecordError::Overflow(client) => {
                let mut text = "would overflow the balances of client ".to_owned();
                digits::push_number(&mut text, *client as u64);
                text
            },
        }
    }
}

/// `middle` between two other texts.
fn quoted(before: &str, middle: &str, after: &str) -> (text: String)
    ensures
        text@ == before@ + middle@ + after@,
{
    let mut text = before.to_owned();
    text.append(middle);
    text.append(after);
    text
}

/// Two numbers, each behind a text.
fn two_numbers(before: &str, first: u64, between: &str, second: u64) -> (text: String)
    ensures
        text@ == before@ + digits::digits(first as nat) + between@ + digits::digits(second as nat),
{
    let mut text = before.to_owned();
    digits::push_number(&mut text, first);
    text.append(between);
    digits::push_number(&mut text, second);
    text
}

/// The characters of each text.
pub open spec fn texts(list: Seq<String>) -> Seq<Seq<char>> {
    list.map_values(|text: String| text@)
}

/// A condition that ends the run. What lies behind it is kept as text, from the nearest cause
/// to the furthest.
#[derive(Debug)]
pub enum FatalError {
    Open { path: String, causes: Vec<String> },
    Read(Vec<String>),
    Write(Vec<String>),
    Runtime(Vec<String>),
    /// The reader thread unwound. Nothing downstream can be trusted to be complete, so
    /// this is reported rather than quietly returning a short result.
    ReaderPanicked,
}

/// One line for each cause.
pub open spec fn cause_lines(causes: Seq<String>) -> Seq<char>
    decreases causes.len(),
{
    if causes.len() == 0 {
        Seq::empty()
    } else {
        cause_lines(causes.drop_last()) + "  caused by: "@ + causes.last()@ + "\n"@
    }
}

impl FatalError {
    /// The input could not be read, and this lies behind it.
    pub open spec fn is_read_failure(self, causes: Seq<Seq<char>>) -> bool {
        self matches FatalError::Read(behind) && texts(behind@) == causes
    }

    /// What lies behind the error.
    pub open spec fn causes(self) -> Seq<String> {
        match self {
            FatalError::Open { path, causes } => causes@,
            FatalError::Read(causes) => causes@,
            FatalError::Write(causes) => causes@,
            FatalError::Runtime(causes) => causes@,
            FatalError::ReaderPanicked => Seq::empty(),
        }
    }

    /// What the error itself says.
    pub open spec fn headline(self) -> Seq<char> {
        match self {
            FatalError::Open { path, causes } => "cannot open `"@ + path@ + "`"@,
            FatalError::Read(_) => "cannot read the input"@,
            FatalError::Write(_) => "cannot write the output"@,
            FatalError::Runtime(_) => "cannot start the worker runtime"@,
            FatalError::ReaderPanicked => "the input reader stopped unexpectedly"@,
        }
    }

    /// What the error itself says.
    pub fn message(&self) -> (text: String)
        ensures
            text@ == self.headline(),
    {
        match self {
            FatalError::Open { path, causes: _ } => quoted("cannot open `", path.as_str(), "`"),
            FatalError::Read(_) => "cannot read the input".to_owned(),
            FatalError::Write(_) => "cannot write the output".to_owned(),
            FatalError::Runtime(_) => "cannot start the worker runtime".to_owned(),
            FatalError::ReaderPanicked => "the input reader stopped unexpectedly".to_owned(),
        }
    }

    /// The error and the chain of causes behind it, one line each.
    pub fn report(&self) -> (text: String)
        ensures
            text@ == "error: "@ + self.headline() + "\n"@ + cause_lines(self.causes()),
    {
        let headline = self.message();
        let mut text = quoted("error: ", headline.as_str(), "\n");
        match self {
            FatalError::Open { path: _, causes } => push_causes(&mut text, causes),
            FatalError::Read(causes) => push_causes(&mut text, causes),
            FatalError::Write(causes) => push_causes(&mut text, causes),
            FatalError::Runtime(causes) => push_causes(&mut text, causes),
            FatalError::ReaderPanicked => {
                assert(text@ + cause_lines(self.causes()) =~= text@);
            },
        }
        text
    }
}

/// Appends one line for each cause.
fn push_causes(text: &mut String, causes: &Vec<String>)
    ensures
        final(text)@ == old(text)@ + cause_lines(causes@),
{
    let mut done: usize = 0;
    assert(old(text)@ + cause_lines(causes@.take(0)) =~= old(text)@);
    while done < causes.len()
        invariant
            done <= causes.len(),
            text@ == old(text)@ + cause_lines(causes@.take(done as int)),
        decreases causes.len() - done,
    {
        text.append("  caused by: ");
        text.append(causes[done].as_str());
        text.append("\n");
        assert(causes@.take(done + 1).drop_last() =~= causes@.take(done as int));
        assert(text@ =~= old(text)@ + cause_lines(causes@.take(done + 1)));
        done = done + 1;
    }
    assert(causes@.take(done as int) =~= causes@);
}

} // verus!
