//! Natural numbers written out in decimal digits.

use vstd::prelude::*;
use vstd::string::StringExecFns;

verus! {

/// The character that stands for the digit `d`.
pub open spec fn digit_char(d: nat) -> char {
    if d == 0 {
        '0'
    } else if d == 1 {
        '1'
    } else if d == 2 {
        '2'
    } else if d == 3 {
        '3'
    } else if d == 4 {
        '4'
    } else if d == 5 {
        '5'
    } else if d == 6 {
        '6'
    } else if d == 7 {
        '7'
    } else if d == 8 {
        '8'
    } else {
        '9'
    }
}

/// The decimal digits of `n`, most significant first and without leading zeros.
pub open spec fn digits(n: nat) -> Seq<char>
    decreases n,
{
    if n < 10 {
        seq![digit_char(n)]
    } else {
        digits(n / 10).push(digit_char(n % 10))
    }
}

/// `c` is one of the ten ASCII digits.
pub open spec fn is_digit(c: char) -> bool {
    '0' <= c && c <= '9'
}

/// Every character of `text` is a digit.
pub open spec fn all_digits(text: Seq<char>) -> bool {
    forall|i: int| 0 <= i < text.len() ==> is_digit(#[trigger] text[i])
}

/// The number that a run of digits denotes.
pub open spec fn digits_value(text: Seq<char>) -> nat
    decreases text.len(),
{
    if text.len() == 0 {
        0
    } else {
        digits_value(text.drop_last()) * 10 + (text.last() as int - '0' as int) as nat
    }
}

/// `n` copies of the character `0`.
pub open spec fn zeros(n: nat) -> Seq<char> {
    Seq::new(n, |i: int| '0')
}

/// The digit `d` as text.
fn digit_text(d: u8) -> (text: &'static str)
    requires
        d < 10,
    ensures
        text@ == seq![digit_char(d as nat)],
{
    proof {
        reveal_strlit("0");
        reveal_strlit("1");
        reveal_strlit("2");
        reveal_strlit("3");
        reveal_strlit("4");
        reveal_strlit("5");
        reveal_strlit("6");
        reveal_strlit("7");
        reveal_strlit("8");
        reveal_strlit("9");
    }
    match d {
        0 => "0",
        1 => "1",
        2 => "2",
        3 => "3",
        4 => "4",
        5 => "5",
        6 => "6",
        7 => "7",
        8 => "8",
        _ => "9",
    }
}

/// Appends the decimal digits of `n` to `text`.
pub fn push_number(text: &mut String, n: u64)
    ensures
        final(text)@ == old(text)@ + digits(n as nat),
    decreases n,
{
    if n >= 10 {
        push_number(text, n / 10);
    }
    text.append(digit_text((n % 10) as u8));
    proof {
        if n >= 10 {
            assert(old(text)@ + digits((n / 10) as nat) + seq![digit_char((n % 10) as nat)] =~= old(
                text,
            )@ + digits(n as nat));
        } else {
            assert(n % 10 == n);
        }
    }
}

/// Appends `n` zeros to `text`.
pub fn push_zeros(text: &mut String, n: usize)
    ensures
        final(text)@ == old(text)@ + zeros(n as nat),
{
    let mut done: usize = 0;
    proof {
        reveal_strlit("0");
    }
    while done < n
        invariant
            done <= n,
            text@ =~= old(text)@ + zeros(done as nat),
            "0"@ =~= seq!['0'],
        decreases n - done,
    {
        text.append("0");
        done = done + 1;
    }
}

/// The digits of a number are digits, and they denote that number. There is no needless zero in
/// front of them.
pub proof fn digits_denote_their_number(n: nat)
    ensures
        all_digits(digits(n)),
        digits(n).len() > 0,
        digits_value(digits(n)) == n,
        n > 0 ==> digits(n)[0] != '0',
        n < 10 ==> digits(n).len() == 1,
    decreases n,
{
    let text = digits(n);
    if n < 10 {
        assert(text.drop_last() =~= Seq::<char>::empty());
        assert(digits_value(text.drop_last()) == 0);
    } else {
        digits_denote_their_number(n / 10);
        assert(text.drop_last() =~= digits(n / 10));
    }
}

/// Zeros in front of a run of digits do not change what it denotes.
pub proof fn leading_zeros_denote_nothing(n: nat, text: Seq<char>)
    ensures
        digits_value(zeros(n) + text) == digits_value(text),
    decreases n + text.len(),
{
    let whole = zeros(n) + text;
    if text.len() > 0 {
        assert(whole.drop_last() =~= zeros(n) + text.drop_last());
        leading_zeros_denote_nothing(n, text.drop_last());
    } else if n > 0 {
        assert(whole.drop_last() =~= zeros((n - 1) as nat) + text);
        leading_zeros_denote_nothing((n - 1) as nat, text);
    }
}

} // verus!
