//! Whole numbers written out in decimal.

use vstd::prelude::*;
use vstd::string::*;

verus! {

/// The character for a digit below ten.
pub open spec fn digit_char(d: nat) -> char {
    if d == 0 {
        '0'
    } else if d == 1 {
        '1'
    } else if d == 2 {
        '2'
    } else if d == 3 {
        '3'
    } else if d == 4 {
        '4'
    } else if d == 5 {
        '5'
    } else if d == 6 {
        '6'
    } else if d == 7 {
        '7'
    } else if d == 8 {
        '8'
    } else {
        '9'
    }
}

/// A number in decimal: its digits, the highest first, without leading
/// zeros; zero is `0`.
pub open spec fn decimal(n: nat) -> Seq<char>
    decreases n,
{
    if n < 10 {
        seq![digit_char(n)]
    } else {
        decimal(n / 10).push(digit_char(n % 10))
    }
}

/// The characters for a row of digits that stands lowest digit first.
pub open spec fn low_first(digits: Seq<u8>) -> Seq<char>
    decreases digits.len(),
{
    if digits.len() == 0 {
        Seq::empty()
    } else {
        seq![digit_char(digits.last() as nat)] + low_first(digits.drop_last())
    }
}

/// The text for a digit below ten.
pub fn digit_text(d: u8) -> (text: &'static str)
    requires
        d < 10,
    ensures
        text@ == seq![digit_char(d as nat)],
{
    let text = if d == 0 {
        "0"
    } else if d == 1 {
        "1"
    } else if d == 2 {
        "2"
    } else if d == 3 {
        "3"
    } else if d == 4 {
        "4"
    } else if d == 5 {
        "5"
    } else if d == 6 {
        "6"
    } else if d == 7 {
        "7"
    } else if d == 8 {
        "8"
    } else {
        "9"
    };
    proof {
        reveal_strlit("0");
        reveal_strlit("1");
        reveal_strlit("2");
        reveal_strlit("3");
        reveal_strlit("4");
        reveal_strlit("5");
        reveal_strlit("6");
        reveal_strlit("7");
        reveal_strlit("8");
        reveal_strlit("9");
    }
    text
}

/// Writes a number out in decimal.
pub fn to_decimal(n: usize) -> (text: String)
    ensures
        text@ == decimal(n as nat),
{
    let mut digits: Vec<u8> = Vec::new();
    let mut rest = n;
    while rest >= 10
        invariant
            decimal(n as nat) == decimal(rest as nat) + low_first(digits@),
            forall|i: int| 0 <= i < digits@.len() ==> digits@[i] < 10,
        decreases rest,
    {
        let d = (rest % 10) as u8;
        proof {
            let grown = digits@.push(d);
            assert(grown.drop_last() =~= digits@);
        }
        digits.push(d);
        rest = rest / 10;
    }
    let mut text = digit_text(rest as u8).to_string();
    let mut i = digits.len();
    proof {
        assert(digits@.take(i as int) =~= digits@);
    }
    while i > 0
        invariant
            i <= digits@.len(),
            text@ + low_first(digits@.take(i as int)) == decimal(n as nat),
            forall|j: int| 0 <= j < digits@.len() ==> digits@[j] < 10,
        decreases i,
    {
        i = i - 1;
        proof {
            let upto = digits@.take(i + 1);
            assert(upto.drop_last() =~= digits@.take(i as int));
        }
        text.append(digit_text(digits[i]));
    }
    text
}

/// A number with its sign in decimal: a minus sign before the digits of a
/// negative number, no sign otherwise.
pub open spec fn signed_decimal(n: int) -> Seq<char> {
    if n < 0 {
        "-"@ + decimal((-n) as nat)
    } else {
        decimal(n as nat)
    }
}

/// Writes a number with its sign out in decimal.
pub fn to_signed_decimal(n: i32) -> (text: String)
    ensures
        text@ == signed_decimal(n as int),
{
    let wide: i64 = n as i64;
    if wide < 0 {
        let mut text = "-".to_string();
        text.append(to_decimal((-wide) as usize).as_str());
        text
    } else {
        to_decimal(wide as usize)
    }
}

} // verus!
