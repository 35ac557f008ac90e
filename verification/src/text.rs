//! Verified decimal rendering of integers, used to interpolate observed
//! values into alert titles and messages.

use vstd::prelude::*;
use vstd::string::StringExecFns;

verus! {

/// The character for a single decimal digit.
pub open spec fn dec_digit(d: int) -> char {
    if d == 0 {
        '0'
    } else if d == 1 {
        '1'
    } else if d == 2 {
        '2'
    } else if d == 3 {
        '3'
    } else if d == 4 {
        '4'
    } else if d == 5 {
        '5'
    } else if d == 6 {
        '6'
    } else if d == 7 {
        '7'
    } else if d == 8 {
        '8'
    } else {
        '9'
    }
}

/// Decimal notation of a natural number, most significant digit first.
pub open spec fn dec_nat(n: nat) -> Seq<char>
    decreases n,
{
    if n < 10 {
        seq![dec_digit(n as int)]
    } else {
        dec_nat(n / 10).push(dec_digit((n % 10) as int))
    }
}

/// Decimal notation of an integer: a minus sign for negative values,
/// then the digits of the magnitude.
pub open spec fn dec_int(n: int) -> Seq<char> {
    if n >= 0 {
        dec_nat(n as nat)
    } else {
        seq!['-'] + dec_nat((-n) as nat)
    }
}

/// The one-character string for a single decimal digit.
fn digit_str(d: u8) -> (r: &'static str)
    requires
        d < 10,
    ensures
        r@ == seq![dec_digit(d as int)],
{
    proof {
        reveal_strlit("0");
        reveal_strlit("1");
        reveal_strlit("2");
        reveal_strlit("3");
        reveal_strlit("4");
        reveal_strlit("5");
        reveal_strlit("6");
        reveal_strlit("7");
        reveal_strlit("8");
        reveal_strlit("9");
    }
    match d {
        0 => "0",
        1 => "1",
        2 => "2",
        3 => "3",
        4 => "4",
        5 => "5",
        6 => "6",
        7 => "7",
        8 => "8",
        _ => "9",
    }
}

/// Renders a natural number in decimal.
pub fn format_u64(n: u64) -> (r: String)
    ensures
        r@ == dec_nat(n as nat),
    decreases n,
{
    if n < 10 {
        String::from_str(digit_str(n as u8))
    } else {
        let mut s = format_u64(n / 10);
        s.append(digit_str((n % 10) as u8));
        proof {
            assert(s@ =~= dec_nat(n as nat));
        }
        s
    }
}

/// Builds `prefix` followed by the decimal notation of `n`.
pub fn join2(prefix: &str, n: u64) -> (r: String)
    ensures
        r@ == prefix@ + dec_nat(n as nat),
{
    let mut s = String::from_str(prefix);
    s.append(format_u64(n).as_str());
    s
}

/// Builds `prefix`, the decimal notation of `n`, then `suffix`.
pub fn join3(prefix: &str, n: u64, suffix: &str) -> (r: String)
    ensures
        r@ == prefix@ + dec_nat(n as nat) + suffix@,
{
    let mut s = join2(prefix, n);
    s.append(suffix);
    s
}

/// Builds the decimal notation of `n` followed by `suffix`.
pub fn num_join(n: u64, suffix: &str) -> (r: String)
    ensures
        r@ == dec_nat(n as nat) + suffix@,
{
    let mut s = format_u64(n);
    s.append(suffix);
    s
}

/// Builds `prefix`, `n1`, `mid`, `n2`, `suffix`, with both numbers in
/// decimal notation.
pub fn join5(prefix: &str, n1: u64, mid: &str, n2: u64, suffix: &str) -> (r: String)
    ensures
        r@ == prefix@ + dec_nat(n1 as nat) + mid@ + dec_nat(n2 as nat) + suffix@,
{
    let mut s = join3(prefix, n1, mid);
    s.append(format_u64(n2).as_str());
    s.append(suffix);
    s
}

/// Renders a signed integer in decimal.
pub fn format_i64(n: i64) -> (r: String)
    ensures
        r@ == dec_int(n as int),
{
    if n >= 0 {
        format_u64(n as u64)
    } else {
        let mag: u64 = (-(n as i128)) as u64;
        let digits = format_u64(mag);
        let mut s = String::from_str("-");
        s.append(digits.as_str());
        proof {
            reveal_strlit("-");
            assert(s@ =~= dec_int(n as int));
        }
        s
    }
}

} // verus!
