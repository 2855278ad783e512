//! Verified text helpers: decimal rendering of counters and the fixed error
//! messages that outcome records carry.

use vstd::prelude::*;
use vstd::string::StringExecFns;

verus! {

/// The character for one decimal digit.
pub open spec fn spec_digit(d: int) -> char {
    if d == 0 {
        '0'
    } else if d == 1 {
        '1'
    } else if d == 2 {
        '2'
    } else if d == 3 {
        '3'
    } else if d == 4 {
        '4'
    } else if d == 5 {
        '5'
    } else if d == 6 {
        '6'
    } else if d == 7 {
        '7'
    } else if d == 8 {
        '8'
    } else {
        '9'
    }
}

/// The usual decimal rendering of a non-negative integer, most significant
/// digit first and without leading zeros.
pub open spec fn spec_decimal(n: int) -> Seq<char>
    decreases n,
{
    if n < 10 {
        seq![spec_digit(n)]
    } else {
        spec_decimal(n / 10).push(spec_digit(n % 10))
    }
}

fn digit_str(d: u64) -> (r: &'static str)
    requires
        d < 10,
    ensures
        r@ =~= seq![spec_digit(d as int)],
{
    proof {
        reveal_strlit("0");
        reveal_strlit("1");
        reveal_strlit("2");
        reveal_strlit("3");
        reveal_strlit("4");
        reveal_strlit("5");
        reveal_strlit("6");
        reveal_strlit("7");
        reveal_strlit("8");
        reveal_strlit("9");
    }
    match d {
        0 => "0",
        1 => "1",
        2 => "2",
        3 => "3",
        4 => "4",
        5 => "5",
        6 => "6",
        7 => "7",
        8 => "8",
        _ => "9",
    }
}

/// Decimal rendering of `n`.
pub fn decimal_string(n: u64) -> (r: String)
    ensures
        r@ == spec_decimal(n as int),
    decreases n,
{
    if n < 10 {
        digit_str(n).to_owned()
    } else {
        let mut s = decimal_string(n / 10);
        let last = digit_str(n % 10);
        s.append(last);
        proof {
            assert(s@ =~= spec_decimal(n as int));
        }
        s
    }
}

/// The message an outcome carries for a response whose status lies outside
/// the 2xx range: the numeric status followed by its reason phrase.
pub open spec fn spec_http_error_message(status: int, reason: Seq<char>) -> Seq<char> {
    "HTTP Error: "@ + spec_decimal(status) + " "@ + reason
}

pub fn http_error_message(status: u16, reason: &str) -> (r: String)
    ensures
        r@ == spec_http_error_message(status as int, reason@),
{
    let mut m = "HTTP Error: ".to_owned();
    let digits = decimal_string(status as u64);
    m.append(digits.as_str());
    m.append(" ");
    m.append(reason);
    proof {
        assert(m@ =~= spec_http_error_message(status as int, reason@));
    }
    m
}

/// The message an outcome carries when a response arrived but its body could
/// not be read to the end.
pub open spec fn spec_body_error_message(detail: Seq<char>) -> Seq<char> {
    "Error reading response body: "@ + detail
}

pub fn body_error_message(detail: &str) -> (r: String)
    ensures
        r@ == spec_body_error_message(detail@),
{
    let mut m = "Error reading response body: ".to_owned();
    m.append(detail);
    m
}

/// Character-for-character equality of two owned strings.
pub(crate) fn string_eq(a: &String, b: &String) -> (r: bool)
    ensures
        r == (a@ == b@),
{
    *a == *b
}

} // verus!
