//! Numbers as text.

use vstd::prelude::*;
use vstd::string::StringExecFns;

verus! {

/// The decimal digits of a number, most significant first, without leading
/// zeros.
pub open spec fn decimal_digits(number: nat) -> Seq<char>
    decreases number,
{
    if number < 10 {
        seq![digit_char(number)]
    } else {
        decimal_digits(number / 10).push(digit_char(number % 10))
    }
}

/// The character of one decimal digit.
pub open spec fn digit_char(digit: nat) -> char {
    (48 + digit) as char
}

fn digit(number: u64) -> (r: &'static str)
    requires
        number < 10,
    ensures
        r@ == seq![digit_char(number as nat)],
{
    proof {
        reveal_strlit("0");
        reveal_strlit("1");
        reveal_strlit("2");
        reveal_strlit("3");
        reveal_strlit("4");
        reveal_strlit("5");
        reveal_strlit("6");
        reveal_strlit("7");
        reveal_strlit("8");
        reveal_strlit("9");
    }
    match number {
        0 => "0",
        1 => "1",
        2 => "2",
        3 => "3",
        4 => "4",
        5 => "5",
        6 => "6",
        7 => "7",
        8 => "8",
        _ => "9",
    }
}

/// A number in decimal.
pub fn decimal(number: u64) -> (r: String)
    ensures
        r@ == decimal_digits(number as nat),
    decreases number,
{
    if number < 10 {
        digit(number).to_owned()
    } else {
        let mut text: String = decimal(number / 10);
        text.append(digit(number % 10));
        text
    }
}

/// The number that a run of decimal digits stands for.
pub open spec fn decimal_value(digits: Seq<char>) -> int
    decreases digits.len(),
{
    if digits.len() == 0 {
        0
    } else {
        10 * decimal_value(digits.drop_last()) + (digits.last() as int - 48)
    }
}

/// Reading a number's decimal digits gives the number back.
pub proof fn law_decimal_reads_back(number: nat)
    ensures
        decimal_value(decimal_digits(number)) == number,
        decimal_digits(number).len() > 0,
    decreases number,
{
    if number < 10 {
        let digits = decimal_digits(number);
        assert(digits.drop_last() =~= Seq::<char>::empty());
        assert(decimal_value(digits.drop_last()) == 0);
    } else {
        law_decimal_reads_back(number / 10);
        assert(decimal_digits(number).drop_last() =~= decimal_digits(number / 10));
    }
}

/// A number is written digit by digit: one digit more at the end is ten times the
/// number and that digit, and a number below ten is its digit.
pub proof fn law_digits_are_written_in_order(number: nat, digit: nat)
    requires
        digit < 10,
    ensures
        decimal_digits(digit) == seq![(48 + digit) as char],
        number > 0 ==> decimal_digits(10 * number + digit) == decimal_digits(number).push(
            (48 + digit) as char,
        ),
{
}

} // verus!
