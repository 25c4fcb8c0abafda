//! Numbers as they stand in a report: decimal, at least two characters wide.

use vstd::prelude::*;
use vstd::string::StringExecFns;

verus! {

/// The texts of a list of strings.
pub open spec fn texts(lines: Seq<String>) -> Seq<Seq<char>> {
    Seq::new(lines.len(), |i: int| lines[i]@)
}

/// The character of a decimal digit.
pub open spec fn digit_char(digit: nat) -> char {
    if digit == 0 {
        '0'
    } else if digit == 1 {
        '1'
    } else if digit == 2 {
        '2'
    } else if digit == 3 {
        '3'
    } else if digit == 4 {
        '4'
    } else if digit == 5 {
        '5'
    } else if digit == 6 {
        '6'
    } else if digit == 7 {
        '7'
    } else if digit == 8 {
        '8'
    } else {
        '9'
    }
}

/// `n` in decimal, without leading zeros.
pub open spec fn decimal(n: nat) -> Seq<char>
    decreases n,
{
    if n < 10 {
        seq![digit_char(n)]
    } else {
        decimal(n / 10).push(digit_char(n % 10))
    }
}

/// `n` in decimal, with a space in front where it has one digit only.
pub open spec fn padded(n: nat) -> Seq<char> {
    if n < 10 {
        seq![' ', digit_char(n)]
    } else {
        decimal(n)
    }
}

/// The text of one decimal digit.
fn digit_text(digit: u8) -> (r: &'static str)
    requires
        digit < 10,
    ensures
        r@ == seq![digit_char(digit as nat)],
{
    proof {
        reveal_strlit("0");
        reveal_strlit("1");
        reveal_strlit("2");
        reveal_strlit("3");
        reveal_strlit("4");
        reveal_strlit("5");
        reveal_strlit("6");
        reveal_strlit("7");
        reveal_strlit("8");
        reveal_strlit("9");
    }
    let r = match digit {
        0 => "0",
        1 => "1",
        2 => "2",
        3 => "3",
        4 => "4",
        5 => "5",
        6 => "6",
        7 => "7",
        8 => "8",
        _ => "9",
    };
    assert(r@ =~= seq![digit_char(digit as nat)]);
    r
}

/// Writes `n` in decimal at the end of `out`.
pub fn push_decimal(out: &mut String, n: u128)
    ensures
        final(out)@ == old(out)@ + decimal(n as nat),
    decreases n,
{
    if n >= 10 {
        push_decimal(out, n / 10);
    }
    let digit: u8 = (n % 10) as u8;
    out.append(digit_text(digit));
    assert(out@ =~= old(out)@ + decimal(n as nat));
}

/// Writes `n` at the end of `out`, two characters wide at least.
pub fn push_padded(out: &mut String, n: u128)
    ensures
        final(out)@ == old(out)@ + padded(n as nat),
{
    if n < 10 {
        proof {
            reveal_strlit(" ");
        }
        out.append(" ");
    }
    push_decimal(out, n);
    assert(out@ =~= old(out)@ + padded(n as nat));
}

/// `n` in decimal, two characters wide at least.
pub fn padded_text(n: u128) -> (r: String)
    ensures
        r@ == padded(n as nat),
{
    let mut out = String::new();
    push_padded(&mut out, n);
    out
}

} // verus!
