//! Rendering the final account states as CSV.

use crate::account::{AccountRow, AccountState, Row};
use crate::account_laws;
use crate::amount;
use crate::decimal;
use crate::decimal::{Decimal, Number};
use crate::digits;
use crate::engine;
use crate::engine::{Engine, EngineState};
use crate::engine_laws;
use crate::error;
use vstd::prelude::*;
use vstd::string::StringExecFns;

verus! {

/// A balance as it is reported: at least [`amount::SCALE`] decimal places, with zeros behind
/// the digits that it has.
pub open spec fn rendered(number: Number) -> Seq<char> {
    let missing = if number.scale < amount::SCALE {
        (amount::SCALE - number.scale) as nat
    } else {
        0
    };
    number.sign() + number.whole_digits() + seq!['.'] + number.fraction_digits() + digits::zeros(
        missing,
    )
}

/// Formats a balance with exactly [`amount::SCALE`] decimal places.
///
/// Padding the plain text cannot fail, where asking for an explicit precision may once the
/// value has enough integer digits, and an input file can push a balance that high.
pub fn render(value: Decimal) -> (text: String)
    ensures
        text@ == rendered(value@),
{
    let mut text = value.to_string();
    let scale: u32 = value.scale();
    if scale == 0 {
        proof {
            reveal_strlit(".");
        }
        text.append(".");
        assert("."@ =~= seq!['.']);
        assert(value@.fraction_digits() =~= Seq::empty());
        assert(text@ =~= value@.sign() + value@.whole_digits() + seq!['.']
            + value@.fraction_digits());
    }
    if scale < amount::SCALE {
        digits::push_zeros(&mut text, (amount::SCALE - scale) as usize);
    } else {
        assert(text@ + digits::zeros(0) =~= text@);
    }
    text
}

/// A field that CSV writes as it is: not empty, and without a quote, a comma or a line break.
pub open spec fn is_plain(field: Seq<char>) -> bool {
    field.len() > 0 && forall|i: int|
        0 <= i < field.len() ==> (#[trigger] field[i]) != '"' && field[i] != ',' && field[i] != '\r'
            && field[i] != '\n'
}

/// Fields with a comma between any two.
pub open spec fn joined(fields: Seq<Seq<char>>) -> Seq<char>
    decreases fields.len(),
{
    if fields.len() == 0 {
        Seq::empty()
    } else if fields.len() == 1 {
        fields[0]
    } else {
        joined(fields.drop_last()) + seq![','] + fields.last()
    }
}

/// Writes one record with `csv::Writer::write_record` into memory, where writing cannot fail.
/// Fields that need no quotes come out as they are, with commas between them and a line feed
/// behind the last.
#[verifier::external_body]
fn csv_line(fields: &Vec<String>) -> (line: String)
    requires
        fields@.len() > 0,
        forall|i: int| 0 <= i < fields@.len() ==> is_plain((#[trigger] fields@[i])@),
    ensures
        line@ == joined(error::texts(fields@)) + seq!['\n'],
{
    let mut writer = csv::Writer::from_writer(Vec::new());
    writer.write_record(fields).expect("memory takes every record");
    let bytes = writer.into_inner().expect("memory takes every byte");
    String::from_utf8(bytes).expect("texts are made of characters")
}

/// What the columns hold.
pub open spec fn header_fields() -> Seq<Seq<char>> {
    seq!["client"@, "available"@, "held"@, "total"@, "locked"@]
}

/// The fields of a row.
pub open spec fn row_fields(row: Row) -> Seq<Seq<char>> {
    seq![
        digits::digits(row.client as nat),
        rendered(row.available),
        rendered(row.held),
        rendered(row.total),
        if row.locked {
            "true"@
        } else {
            "false"@
        },
    ]
}

/// The first line of the output.
pub open spec fn header_line() -> Seq<char> {
    joined(header_fields()) + seq!['\n']
}

/// The line that reports an account.
pub open spec fn row_line(row: Row) -> Seq<char> {
    joined(row_fields(row)) + seq!['\n']
}

/// One line for each row.
pub open spec fn row_lines(rows: Seq<Row>) -> Seq<char>
    decreases rows.len(),
{
    if rows.len() == 0 {
        Seq::empty()
    } else {
        row_lines(rows.drop_last()) + row_line(rows.last())
    }
}

/// Digits are plain.
proof fn digits_are_plain(n: nat)
    ensures
        is_plain(digits::digits(n)),
{
    digits::digits_denote_their_number(n);
}

/// A rendered balance is plain.
proof fn a_rendered_balance_is_plain(number: Number)
    ensures
        is_plain(rendered(number)),
{
    let text = rendered(number);
    let written = number.all_written();
    digits::digits_denote_their_number(decimal::magnitude(number.mantissa));
    assert(digits::all_digits(written));
    assert(written.len() >= number.scale + 1);
}

/// The header line.
pub fn header() -> (line: String)
    ensures
        line@ == header_line(),
{
    let mut fields: Vec<String> = Vec::new();
    fields.push("client".to_owned());
    fields.push("available".to_owned());
    fields.push("held".to_owned());
    fields.push("total".to_owned());
    fields.push("locked".to_owned());
    proof {
        reveal_strlit("client");
        reveal_strlit("available");
        reveal_strlit("held");
        reveal_strlit("total");
        reveal_strlit("locked");
        assert(error::texts(fields@) =~= header_fields());
    }
    csv_line(&fields)
}

/// The line that reports an account.
pub fn line(row: &AccountRow) -> (line: String)
    ensures
        line@ == row_line(row@),
{
    let mut client = String::new();
    digits::push_number(&mut client, row.client as u64);
    let mut fields: Vec<String> = Vec::new();
    fields.push(client);
    fields.push(render(row.available));
    fields.push(render(row.held));
    fields.push(render(row.total));
    fields.push(
        if row.locked {
            "true".to_owned()
        } else {
            "false".to_owned()
        },
    );
    proof {
        reveal_strlit("true");
        reveal_strlit("false");
        assert(client@ =~= digits::digits(row.client as nat));
        digits_are_plain(row.client as nat);
        a_rendered_balance_is_plain(row.available@);
        a_rendered_balance_is_plain(row.held@);
        a_rendered_balance_is_plain(row.total@);
        assert(error::texts(fields@) =~= row_fields(row@));
    }
    csv_line(&fields)
}

/// The rows of all open accounts, in ascending order of their clients.
pub open spec fn account_rows(engine: EngineState) -> Seq<Row> {
    engine::states_for(engine.accounts, engine.clients()).map_values(
        |account: AccountState| account.row(account.history is None),
    )
}

/// Writes every account as a CSV row.
///
/// Sorting by client makes the output deterministic. With at most 65,536 accounts it is free.
pub fn write(engine: &Engine) -> (text: String)
    ensures
        text@ == header_line() + row_lines(account_rows(engine@)),
{
    let mut text = header();
    let accounts = engine.accounts();
    let mut next: usize = 0;
    let ghost rows = account_rows(engine@);
    assert(text@ + row_lines(rows.take(0)) =~= text@);
    while next < accounts.len()
        invariant
            next <= accounts@.len(),
            rows == account_rows(engine@),
            engine::states_of(accounts@) == engine::states_for(engine@.accounts, engine@.clients()),
            text@ == header_line() + row_lines(rows.take(next as int)),
        decreases accounts@.len() - next,
    {
        let account = accounts[next];
        let row = account.row(account.is_locked());
        text.append(line(&row).as_str());
        proof {
            assert(engine::states_of(accounts@)[next as int] == account@);
            assert(rows[next as int] == row@);
            assert(rows.take(next + 1).drop_last() =~= rows.take(next as int));
            assert(text@ =~= header_line() + row_lines(rows.take(next + 1)));
        }
        next = next + 1;
    }
    proof {
        assert(engine::states_of(accounts@).len() == accounts@.len());
        assert(rows.take(next as int) =~= rows);
    }
    text
}

/// A balance of at most four decimal places is always written with exactly four of them.
pub proof fn balances_have_four_decimals(number: Number)
    requires
        number.scale <= amount::SCALE,
    ensures
        ({
            let body = decimal::unsigned(rendered(number));
            &&& decimal::point_in(body) == body.len() - 5
            &&& decimal::before_point(body) == number.whole_digits()
            &&& decimal::after_point(body) == number.fraction_digits() + digits::zeros(
                (amount::SCALE - number.scale) as nat,
            )
            &&& digits::all_digits(decimal::before_point(body) + decimal::after_point(body))
            &&& decimal::before_point(body).len() > 0
        }),
{
    let whole = number.whole_digits();
    let fraction = number.fraction_digits() + digits::zeros((amount::SCALE - number.scale) as nat);
    let written = number.all_written();
    let text = rendered(number);
    digits::digits_denote_their_number(decimal::magnitude(number.mantissa));
    assert(digits::all_digits(written));
    assert(whole[0] == written[0]);
    assert(decimal::unsigned(text) =~= whole + seq!['.'] + fraction);
    decimal::the_point_follows_the_digits(whole, fraction);
}

/// Zeros behind a run of digits multiply what it denotes.
proof fn trailing_zeros_multiply(text: Seq<char>, n: nat)
    ensures
        digits::digits_value(text + digits::zeros(n)) == digits::digits_value(text)
            * decimal::ten_to(n),
    decreases n,
{
    let whole = text + digits::zeros(n);
    if n > 0 {
        let fewer = (n - 1) as nat;
        trailing_zeros_multiply(text, fewer);
        assert(whole.drop_last() =~= text + digits::zeros(fewer));
        let value = digits::digits_value(text);
        assert((value * decimal::ten_to(fewer)) * 10 == value * (10 * decimal::ten_to(fewer)))
            by (nonlinear_arith);
    } else {
        assert(whole =~= text);
        assert(digits::digits_value(text) * 1 == digits::digits_value(text));
    }
}

/// Reporting never rounds: what is written, read back, is the balance itself with four decimal
/// places.
pub proof fn a_rendered_balance_reads_back(number: Number)
    requires
        number.scale <= amount::SCALE,
        decimal::magnitude(number.at_scale(amount::SCALE as nat)) <= decimal::MAX_MANTISSA,
    ensures
        decimal::parsed(rendered(number)) == Some(
            Number {
                mantissa: number.at_scale(amount::SCALE as nat),
                scale: amount::SCALE as nat,
            },
        ),
{
    let missing = (amount::SCALE - number.scale) as nat;
    let written = number.all_written();
    let text = rendered(number);
    let body = decimal::unsigned(text);
    let size = decimal::magnitude(number.mantissa);
    balances_have_four_decimals(number);
    digits::digits_denote_their_number(size);
    assert(decimal::before_point(body) + decimal::after_point(body) =~= written + digits::zeros(
        missing,
    ));
    if digits::digits(size).len() < number.scale + 1 {
        digits::leading_zeros_denote_nothing(
            (number.scale + 1 - digits::digits(size).len()) as nat,
            digits::digits(size),
        );
    }
    trailing_zeros_multiply(written, missing);
    assert(digits::digits_value(written) == size);
    decimal::powers_of_ten_multiply(missing, 0);
    let unit = decimal::ten_to(missing);
    assert(number.mantissa < 0 ==> -(size * unit) == number.mantissa * unit) by (nonlinear_arith)
        requires
            number.mantissa < 0 ==> size == -number.mantissa,
    ;
    assert(number.mantissa >= 0 ==> size * unit == number.mantissa * unit);
    assert(number.mantissa < 0 ==> number.mantissa * unit < 0) by (nonlinear_arith)
        requires
            unit > 0,
    ;
    let fraction = number.fraction_digits() + digits::zeros(missing);
    assert(body =~= number.whole_digits() + seq!['.'] + fraction);
    assert forall|i: int| 0 <= i < body.len() implies body[i] != '_' by {
        if i < number.whole_digits().len() {
            assert(digits::is_digit(written[i]));
        } else if i > number.whole_digits().len() {
            assert(digits::is_digit(
                (decimal::before_point(body) + decimal::after_point(body))[i - 1],
            ));
        }
    }
    decimal::nothing_to_separate(body);
}

/// Where the first comma stands in `text`; its length if there is none.
pub open spec fn comma_in(text: Seq<char>) -> nat
    decreases text.len(),
{
    if text.len() == 0 || text[0] == ',' {
        0
    } else {
        1 + comma_in(text.skip(1))
    }
}

/// What stands in front of the comma with this number, the first being number zero, and behind
/// the one before it.
pub open spec fn column(text: Seq<char>, number: nat) -> Seq<char>
    decreases number,
{
    if number == 0 {
        text.take(comma_in(text) as int)
    } else {
        column(text.skip(comma_in(text) as int + 1), (number - 1) as nat)
    }
}

/// How many commas stand in `text`.
pub open spec fn commas(text: Seq<char>) -> nat
    decreases text.len(),
{
    if text.len() == 0 {
        0
    } else {
        commas(text.drop_last()) + if text.last() == ',' {
            1nat
        } else {
            0nat
        }
    }
}

/// What a balance written with four decimal places says, in ten-thousandths.
pub open spec fn written_value(text: Seq<char>) -> int {
    let body = decimal::unsigned(text);
    let size = digits::digits_value(decimal::before_point(body) + decimal::after_point(body));
    if text.len() > 0 && text[0] == '-' {
        -size
    } else {
        size as int
    }
}

/// `text` is `number` with four decimal places: a minus sign exactly below zero, the whole part
/// without needless zeros, a point, and four digits. Read back it has the value of the number.
pub open spec fn says(text: Seq<char>, number: Number) -> bool {
    let body = decimal::unsigned(text);
    &&& (text.len() > 0 && text[0] == '-') == (number.mantissa < 0)
    &&& text.len() > 0 && text[0] != '+'
    &&& decimal::before_point(body) == digits::digits(
        decimal::magnitude(number.mantissa) / decimal::ten_to(number.scale),
    )
    &&& decimal::after_point(body).len() == 4
    &&& digits::all_digits(decimal::before_point(body) + decimal::after_point(body))
    &&& body == decimal::before_point(body) + seq!['.'] + decimal::after_point(body)
    &&& written_value(text) == number.at_scale(4)
    &&& written_value(text) * decimal::ten_to(24) == number.value()
}

/// The digits in front of the last `scale` of a number are those of its whole part.
proof fn the_whole_part_is_written_in_front(n: nat, scale: nat)
    ensures
        ({
            let written = decimal::padded(n, scale + 1);
            written.take(written.len() - scale) == digits::digits(n / decimal::ten_to(scale))
        }),
        decimal::padded(n, scale + 1).len() >= scale + 1,
    decreases scale,
{
    let written = decimal::padded(n, scale + 1);
    digits::digits_denote_their_number(n);
    if scale == 0 {
        assert(n / 1 == n);
        assert(written.take(written.len() as int) =~= written);
    } else {
        let fewer = (scale - 1) as nat;
        let front = decimal::padded(n / 10, scale);
        the_whole_part_is_written_in_front(n / 10, fewer);
        decimal::powers_of_ten_multiply(fewer, 0);
        vstd::arithmetic::div_mod::lemma_div_denominator(
            n as int,
            10,
            decimal::ten_to(fewer) as int,
        );
        assert(decimal::ten_to(scale) == 10 * decimal::ten_to(fewer));
        assert(written.drop_last() =~= front);
        assert(written.take(written.len() - scale) =~= front.take(front.len() - fewer));
    }
}

/// A balance is written as what it is.
pub proof fn a_balance_is_written_as_it_is(number: Number)
    requires
        number.scale <= amount::SCALE,
    ensures
        says(rendered(number), number),
{
    let missing = (amount::SCALE - number.scale) as nat;
    let written = number.all_written();
    let text = rendered(number);
    let body = decimal::unsigned(text);
    let size = decimal::magnitude(number.mantissa);
    let unit = decimal::ten_to(missing);
    balances_have_four_decimals(number);
    digits::digits_denote_their_number(size);
    the_whole_part_is_written_in_front(size, number.scale);
    assert(decimal::before_point(body) + decimal::after_point(body) =~= written + digits::zeros(
        missing,
    ));
    if digits::digits(size).len() < number.scale + 1 {
        digits::leading_zeros_denote_nothing(
            (number.scale + 1 - digits::digits(size).len()) as nat,
            digits::digits(size),
        );
    }
    trailing_zeros_multiply(written, missing);
    decimal::powers_of_ten_multiply(missing, 0);
    assert(number.mantissa < 0 ==> -(size * unit) == number.mantissa * unit) by (nonlinear_arith)
        requires
            number.mantissa < 0 ==> size == -number.mantissa,
    ;
    assert(body =~= decimal::before_point(body) + seq!['.'] + decimal::after_point(body));
    assert(text[0] == '-' <==> number.mantissa < 0) by {
        if number.mantissa >= 0 {
            assert(text[0] == written[0]);
            assert(digits::is_digit(written[0]));
        }
    }
    decimal::rescaling_in_two_goes(number, 4, decimal::MAX_SCALE as nat);
}

/// The first comma behind a field without commas ends it.
proof fn a_comma_ends_a_field(field: Seq<char>, rest: Seq<char>)
    requires
        forall|i: int| 0 <= i < field.len() ==> #[trigger] field[i] != ',',
    ensures
        comma_in(field + seq![','] + rest) == field.len(),
        column(field + seq![','] + rest, 0) == field,
        (field + seq![','] + rest).skip(field.len() as int + 1) == rest,
    decreases field.len(),
{
    let text = field + seq![','] + rest;
    if field.len() > 0 {
        a_comma_ends_a_field(field.skip(1), rest);
        assert(text[0] == field[0]);
        assert(text.skip(1) =~= field.skip(1) + seq![','] + rest);
    } else {
        assert(text[0] == ',');
    }
    assert(text.take(field.len() as int) =~= field);
    assert(text.skip(field.len() as int + 1) =~= rest);
}

/// A field without commas is one column.
proof fn a_field_is_a_column(field: Seq<char>)
    requires
        forall|i: int| 0 <= i < field.len() ==> #[trigger] field[i] != ',',
    ensures
        comma_in(field) == field.len(),
        column(field, 0) == field,
        commas(field) == 0,
    decreases field.len(),
{
    if field.len() > 0 {
        a_field_is_a_column(field.skip(1));
        a_field_is_a_column(field.drop_last());
    }
    assert(field.take(field.len() as int) =~= field);
}

/// The commas of two texts together.
proof fn commas_add_up(first: Seq<char>, second: Seq<char>)
    ensures
        commas(first + second) == commas(first) + commas(second),
    decreases second.len(),
{
    if second.len() > 0 {
        commas_add_up(first, second.drop_last());
        assert((first + second).drop_last() =~= first + second.drop_last());
    } else {
        assert(first + second =~= first);
    }
}

/// A field in front of a text is one column more.
proof fn a_field_is_one_column_more(field: Seq<char>, rest: Seq<char>, number: nat)
    requires
        is_plain(field),
    ensures
        column(field + seq![','] + rest, 0) == field,
        column(field + seq![','] + rest, number + 1) == column(rest, number),
        commas(field + seq![','] + rest) == 1 + commas(rest),
{
    let comma = seq![','];
    a_comma_ends_a_field(field, rest);
    a_field_is_a_column(field);
    commas_add_up(field + comma, rest);
    commas_add_up(field, comma);
    assert(comma.drop_last() =~= Seq::empty());
    assert(commas(comma.drop_last()) == 0);
}

/// Five fields with commas between them, read from the front.
proof fn five_fields_from_the_front(fields: Seq<Seq<char>>)
    requires
        fields.len() == 5,
    ensures
        joined(fields) == fields[0] + seq![','] + (fields[1] + seq![','] + (fields[2] + seq![',']
            + (fields[3] + seq![','] + fields[4]))),
{
    let comma = seq![','];
    let four = fields.drop_last();
    let three = four.drop_last();
    let two = three.drop_last();
    assert(joined(two.drop_last()) == fields[0]);
    assert(joined(two) == fields[0] + comma + fields[1]);
    assert(joined(three) == joined(two) + comma + fields[2]);
    assert(joined(four) == joined(three) + comma + fields[3]);
    assert(joined(fields) == joined(four) + comma + fields[4]);
    assert(joined(fields) =~= fields[0] + comma + (fields[1] + comma + (fields[2] + comma + (
    fields[3] + comma + fields[4]))));
}

/// Five plain fields with commas between them are five columns.
proof fn five_fields_are_five_columns(fields: Seq<Seq<char>>)
    requires
        fields.len() == 5,
        forall|i: int| 0 <= i < 5 ==> is_plain(#[trigger] fields[i]),
    ensures
        commas(joined(fields)) == 4,
        forall|i: int| 0 <= i < 5 ==> column(joined(fields), i as nat) == #[trigger] fields[i],
{
    let comma = seq![','];
    let last = fields[4];
    let from_three = fields[3] + comma + last;
    let from_two = fields[2] + comma + from_three;
    let from_one = fields[1] + comma + from_two;
    five_fields_from_the_front(fields);
    a_field_is_a_column(last);
    a_field_is_one_column_more(fields[3], last, 0);
    a_field_is_one_column_more(fields[2], from_three, 0);
    a_field_is_one_column_more(fields[2], from_three, 1);
    a_field_is_one_column_more(fields[1], from_two, 0);
    a_field_is_one_column_more(fields[1], from_two, 1);
    a_field_is_one_column_more(fields[1], from_two, 2);
    a_field_is_one_column_more(fields[0], from_one, 0);
    a_field_is_one_column_more(fields[0], from_one, 1);
    a_field_is_one_column_more(fields[0], from_one, 2);
    a_field_is_one_column_more(fields[0], from_one, 3);
    assert forall|i: int| 0 <= i < 5 implies column(joined(fields), i as nat)
        == #[trigger] fields[i] by {
        assert(i == 0 || i == 1 || i == 2 || i == 3 || i == 4);
    }
}

/// The line of a row is one line of five columns: the client, then what is available, what is
/// held and the total, each as it is, and whether the account is locked.
pub open spec fn is_line_of(line: Seq<char>, row: Row) -> bool {
    let body = line.drop_last();
    &&& line.len() > 0 && line.last() == '\n'
    &&& !body.contains('\n')
    &&& commas(body) == 4
    &&& column(body, 0) == digits::digits(row.client as nat)
    &&& digits::digits_value(column(body, 0)) == row.client
    &&& says(column(body, 1), row.available)
    &&& says(column(body, 2), row.held)
    &&& says(column(body, 3), row.total)
    &&& column(body, 4) == if row.locked {
        seq!['t', 'r', 'u', 'e']
    } else {
        seq!['f', 'a', 'l', 's', 'e']
    }
}

/// No field breaks the line.
proof fn plain_fields_make_one_line(fields: Seq<Seq<char>>)
    requires
        forall|i: int| 0 <= i < fields.len() ==> is_plain(#[trigger] fields[i]),
    ensures
        !joined(fields).contains('\n'),
    decreases fields.len(),
{
    if fields.len() == 1 {
        assert(is_plain(fields[0]));
    } else if fields.len() > 1 {
        let before = fields.drop_last();
        assert forall|i: int| 0 <= i < before.len() implies is_plain(#[trigger] before[i]) by {
            assert(is_plain(fields[i]));
        }
        plain_fields_make_one_line(before);
        assert(is_plain(fields[fields.len() - 1]));
        let text = joined(fields);
        let front = joined(before);
        if text.contains('\n') {
            let i = choose|i: int| 0 <= i < text.len() && text[i] == '\n';
            if i < front.len() {
                assert(front[i] == '\n');
            } else if i > front.len() {
                assert(fields.last()[i - front.len() - 1] == '\n');
            }
        }
    }
}

/// A row is written column by column as what it is.
pub proof fn a_row_is_written_as_it_is(row: Row)
    requires
        row.available.scale <= amount::SCALE,
        row.held.scale <= amount::SCALE,
        row.total.scale <= amount::SCALE,
    ensures
        is_line_of(row_line(row), row),
{
    let fields = row_fields(row);
    let line = row_line(row);
    reveal_strlit("true");
    reveal_strlit("false");
    digits::digits_denote_their_number(row.client as nat);
    digits_are_plain(row.client as nat);
    a_rendered_balance_is_plain(row.available);
    a_rendered_balance_is_plain(row.held);
    a_rendered_balance_is_plain(row.total);
    a_balance_is_written_as_it_is(row.available);
    a_balance_is_written_as_it_is(row.held);
    a_balance_is_written_as_it_is(row.total);
    assert("true"@ =~= seq!['t', 'r', 'u', 'e']);
    assert("false"@ =~= seq!['f', 'a', 'l', 's', 'e']);
    assert forall|i: int| 0 <= i < 5 implies is_plain(#[trigger] fields[i]) by {
        if i == 4 {
            assert(fields[4] == "true"@ || fields[4] == "false"@);
        }
    }
    five_fields_are_five_columns(fields);
    plain_fields_make_one_line(fields);
    assert(line.drop_last() =~= joined(fields));
    assert(fields[0] == digits::digits(row.client as nat));
    assert(fields[1] == rendered(row.available));
    assert(fields[2] == rendered(row.held));
    assert(fields[3] == rendered(row.total));
    assert(column(joined(fields), 0) == fields[0]);
    assert(column(joined(fields), 1) == fields[1]);
    assert(column(joined(fields), 2) == fields[2]);
    assert(column(joined(fields), 3) == fields[3]);
    assert(column(joined(fields), 4) == fields[4]);
}

/// In the line of an account, the total is the sum of what is available and what is held,
/// whether the account is locked or not.
pub proof fn a_written_total_is_the_sum(account: AccountState, locked: bool)
    requires
        account.valid(),
    ensures
        ({
            let line = row_line(account.row(locked)).drop_last();
            &&& written_value(column(line, 3)) == written_value(column(line, 1)) + written_value(
                column(line, 2),
            )
            &&& says(column(line, 1), account.available)
            &&& says(column(line, 2), account.held)
        }),
{
    account_laws::a_row_reports_the_account(account, locked);
    let row = account.row(locked);
    let line = row_line(row).drop_last();
    a_row_is_written_as_it_is(row);
    let unit = decimal::ten_to(24);
    let x = written_value(column(line, 1));
    let y = written_value(column(line, 2));
    let z = written_value(column(line, 3));
    decimal::powers_of_ten_multiply(24, 0);
    assert(z == x + y) by (nonlinear_arith)
        requires
            z * unit == x * unit + y * unit,
            unit > 0,
    ;
}

/// A call that writes a row writes it column by column as what it is.
pub proof fn a_written_row(row: &AccountRow, text: String)
    requires
        call_ensures(line, (row,), text),
        row.available@.scale <= amount::SCALE,
        row.held@.scale <= amount::SCALE,
        row.total@.scale <= amount::SCALE,
    ensures
        is_line_of(
            text@,
            Row {
                client: row.client,
                available: row.available@,
                held: row.held@,
                total: row.total@,
                locked: row.locked,
            },
        ),
{
    a_row_is_written_as_it_is(row@);
}

/// A call that renders a balance gives it as what it is, with four decimal places.
pub proof fn a_rendered_balance(value: Decimal, text: String)
    requires
        call_ensures(render, (value,), text),
        value@.scale <= amount::SCALE,
    ensures
        says(text@, value@),
{
    a_balance_is_written_as_it_is(value@);
}

/// The header names the columns in the order in which a row has them.
pub proof fn a_written_header(text: String)
    requires
        call_ensures(header, (), text),
    ensures
        ({
            let body = text@.drop_last();
            &&& text@.len() > 0 && text@.last() == '\n'
            &&& commas(body) == 4
            &&& column(body, 0) == seq!['c', 'l', 'i', 'e', 'n', 't']
            &&& column(body, 1) == seq!['a', 'v', 'a', 'i', 'l', 'a', 'b', 'l', 'e']
            &&& column(body, 2) == seq!['h', 'e', 'l', 'd']
            &&& column(body, 3) == seq!['t', 'o', 't', 'a', 'l']
            &&& column(body, 4) == seq!['l', 'o', 'c', 'k', 'e', 'd']
        }),
{
    let fields = header_fields();
    reveal_strlit("client");
    reveal_strlit("available");
    reveal_strlit("held");
    reveal_strlit("total");
    reveal_strlit("locked");
    assert(fields[0] =~= seq!['c', 'l', 'i', 'e', 'n', 't']);
    assert(fields[1] =~= seq!['a', 'v', 'a', 'i', 'l', 'a', 'b', 'l', 'e']);
    assert(fields[2] =~= seq!['h', 'e', 'l', 'd']);
    assert(fields[3] =~= seq!['t', 'o', 't', 'a', 'l']);
    assert(fields[4] =~= seq!['l', 'o', 'c', 'k', 'e', 'd']);
    five_fields_are_five_columns(fields);
    assert(text@.drop_last() =~= joined(fields));
    assert(column(joined(fields), 0) == fields[0]);
    assert(column(joined(fields), 1) == fields[1]);
    assert(column(joined(fields), 2) == fields[2]);
    assert(column(joined(fields), 3) == fields[3]);
    assert(column(joined(fields), 4) == fields[4]);
}

/// A line for each row, in their order.
pub proof fn rows_are_written_one_by_one(rows: Seq<Row>, row: Row)
    ensures
        row_lines(Seq::empty()) == Seq::<char>::empty(),
        row_lines(rows.push(row)) == row_lines(rows) + row_line(row),
{
    assert(rows.push(row).drop_last() =~= rows);
}

/// Writing an engine writes the header and then one line for each open account, in ascending
/// order of the clients, each with the balances of the account, their sum, and whether it is
/// locked.
pub proof fn a_written_engine(engine: &Engine, text: String)
    requires
        call_ensures(write, (engine,), text),
        engine_laws::valid(engine@),
    ensures
        exists|rows: Seq<Row>| #[trigger]
            row_lines(rows) == text@.skip(header_line().len() as int) && {
                &&& text@.take(header_line().len() as int) == header_line()
                &&& forall|client: u16| #[trigger]
                    engine@.accounts.contains_key(client) <==> exists|i: int|
                        0 <= i < rows.len() && (#[trigger] rows[i]).client == client
                &&& forall|i: int, j: int|
                    0 <= i < j < rows.len() ==> (#[trigger] rows[i]).client < (
                    #[trigger] rows[j]).client
                &&& forall|i: int|
                    0 <= i < rows.len() ==> {
                        let row = #[trigger] rows[i];
                        let account = engine@.accounts[row.client];
                        &&& is_line_of(row_line(row), row)
                        &&& row.available == account.available
                        &&& row.held == account.held
                        &&& row.total.value() == account.available.value() + account.held.value()
                        &&& row.locked == (account.history is None)
                    }
            },
{
    let state = engine@;
    let rows = account_rows(state);
    let clients = state.clients();
    engine::clients_are_listed_in_order(state.accounts.dom(), engine::CLIENTS as nat);
    assert(text@.take(header_line().len() as int) =~= header_line());
    assert(text@.skip(header_line().len() as int) =~= row_lines(rows));
    assert forall|i: int| 0 <= i < rows.len() implies {
        let row = #[trigger] rows[i];
        let account = state.accounts[row.client];
        &&& state.accounts.contains_key(row.client)
        &&& row.client == clients[i]
        &&& is_line_of(row_line(row), row)
        &&& row.available == account.available
        &&& row.held == account.held
        &&& row.total.value() == account.available.value() + account.held.value()
        &&& row.locked == (account.history is None)
    } by {
        let client = clients[i];
        assert(clients.contains(client));
        assert(state.accounts.contains_key(client));
        account_laws::a_row_reports_the_account(
            state.accounts[client],
            state.accounts[client].history is None,
        );
        a_row_is_written_as_it_is(rows[i]);
    }
    assert forall|client: u16| #[trigger]
        state.accounts.contains_key(client) implies exists|i: int|
        0 <= i < rows.len() && (#[trigger] rows[i]).client == client by {
        assert(clients.contains(client));
        let i = choose|i: int| 0 <= i < clients.len() && clients[i] == client;
        assert(rows[i].client == client);
    }
}

} // verus!
