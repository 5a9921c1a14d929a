//! Naming the backup of a result file.
//!
//! A result file that exists is not overwritten: it is first renamed to its
//! own name followed by a dash and the time of the backup, in seconds since
//! the epoch.

use vstd::prelude::*;
use vstd::string::StringExecFns;

verus! {

/// The character for the digit `d`.
pub open spec fn digit(d: nat) -> char {
    if d == 0 {
        '0'
    } else if d == 1 {
        '1'
    } else if d == 2 {
        '2'
    } else if d == 3 {
        '3'
    } else if d == 4 {
        '4'
    } else if d == 5 {
        '5'
    } else if d == 6 {
        '6'
    } else if d == 7 {
        '7'
    } else if d == 8 {
        '8'
    } else {
        '9'
    }
}

/// The digits of `n` in base ten, the highest first, without leading zeros;
/// zero is `0`.
pub open spec fn decimal_digits(n: nat) -> Seq<char>
    decreases n,
{
    if n < 10 {
        seq![digit(n)]
    } else {
        decimal_digits(n / 10).push(digit(n % 10))
    }
}

/// The name of the backup of the file `file_name`, made at `seconds`.
pub open spec fn backup_of(file_name: Seq<char>, seconds: nat) -> Seq<char> {
    file_name + seq!['-'] + decimal_digits(seconds)
}

/// The text of the digit `d`.
fn digit_text(d: u64) -> (text: &'static str)
    requires
        d < 10,
    ensures
        text@ == seq![digit(d as nat)],
{
    proof {
        reveal_strlit("0");
        reveal_strlit("1");
        reveal_strlit("2");
        reveal_strlit("3");
        reveal_strlit("4");
        reveal_strlit("5");
        reveal_strlit("6");
        reveal_strlit("7");
        reveal_strlit("8");
        reveal_strlit("9");
    }
    let text = if d == 0 {
        "0"
    } else if d == 1 {
        "1"
    } else if d == 2 {
        "2"
    } else if d == 3 {
        "3"
    } else if d == 4 {
        "4"
    } else if d == 5 {
        "5"
    } else if d == 6 {
        "6"
    } else if d == 7 {
        "7"
    } else if d == 8 {
        "8"
    } else {
        "9"
    };
    assert(text@ =~= seq![digit(d as nat)]);
    text
}

/// Appends the digits of `n` to `name`.
fn push_decimal(name: &mut String, n: u64)
    ensures
        final(name)@ == old(name)@ + decimal_digits(n as nat),
    decreases n,
{
    if n >= 10 {
        push_decimal(name, n / 10);
    }
    let ghost before = name@;
    name.append(digit_text(n % 10));
    assert(name@ =~= old(name)@ + decimal_digits(n as nat)) by {
        assert(before + seq![digit((n % 10) as nat)] =~= before.push(digit((n % 10) as nat)));
    }
}

/// The name under which the file `file_name` is kept when a new one is
/// written at `seconds` since the epoch: `file_name`, a dash, and `seconds`
/// in base ten.
pub fn backup_name(seconds: u64, file_name: &str) -> (name: String)
    ensures
        name@ == backup_of(file_name@, seconds as nat),
{
    proof {
        reveal_strlit("-");
    }
    let mut name = file_name.to_owned();
    name.append("-");
    assert(name@ =~= file_name@ + seq!['-']);
    push_decimal(&mut name, seconds);
    name
}

} // verus!
