//! Decimal renderings of machine integers, with exact character-level
//! specifications. Error messages and value displays across the toolchain
//! are built from these.

use vstd::prelude::*;
use vstd::string::StringExecFns;

verus! {

/// The character for one decimal digit.
pub open spec fn digit_char(d: u64) -> char {
    if d == 0 { '0' }
    else if d == 1 { '1' }
    else if d == 2 { '2' }
    else if d == 3 { '3' }
    else if d == 4 { '4' }
    else if d == 5 { '5' }
    else if d == 6 { '6' }
    else if d == 7 { '7' }
    else if d == 8 { '8' }
    else { '9' }
}

/// The decimal digits of an unsigned number, most significant first.
pub open spec fn u64_digits_of(n: u64) -> Seq<char>
    decreases n,
{
    if n < 10 {
        seq![digit_char(n)]
    } else {
        u64_digits_of(n / 10).push(digit_char(n % 10))
    }
}

/// The decimal rendering of a signed number.
pub open spec fn i64_digits_of(i: i64) -> Seq<char> {
    if i < 0 {
        seq!['-'] + u64_digits_of((0 - i as int) as u64)
    } else {
        u64_digits_of(i as u64)
    }
}

fn digit_str(d: u64) -> (r: &'static str)
    requires
        d < 10,
    ensures
        r@ =~= seq![digit_char(d)],
{
    proof {
        reveal_strlit("0");
        reveal_strlit("1");
        reveal_strlit("2");
        reveal_strlit("3");
        reveal_strlit("4");
        reveal_strlit("5");
        reveal_strlit("6");
        reveal_strlit("7");
        reveal_strlit("8");
        reveal_strlit("9");
    }
    if d == 0 { "0" }
    else if d == 1 { "1" }
    else if d == 2 { "2" }
    else if d == 3 { "3" }
    else if d == 4 { "4" }
    else if d == 5 { "5" }
    else if d == 6 { "6" }
    else if d == 7 { "7" }
    else if d == 8 { "8" }
    else { "9" }
}

/// Render an unsigned number in decimal.
pub fn u64_string(n: u64) -> (r: String)
    ensures
        r@ == u64_digits_of(n),
    decreases n,
{
    if n < 10 {
        let r = digit_str(n).to_owned();
        proof { assert(r@ =~= u64_digits_of(n)); }
        r
    } else {
        let mut s = u64_string(n / 10);
        s.append(digit_str(n % 10));
        proof { assert(s@ =~= u64_digits_of(n)); }
        s
    }
}

/// Render a signed number in decimal.
pub fn i64_string(i: i64) -> (r: String)
    ensures
        r@ == i64_digits_of(i),
{
    if i < 0 {
        let magnitude: u64 = if i == i64::MIN {
            0x8000_0000_0000_0000
        } else {
            (-i) as u64
        };
        let mut s = "-".to_owned();
        s.append(u64_string(magnitude).as_str());
        proof {
            reveal_strlit("-");
            assert(s@ =~= i64_digits_of(i));
        }
        s
    } else {
        u64_string(i as u64)
    }
}

/// Render a machine-word count in decimal.
pub fn usize_string(n: usize) -> (r: String)
    ensures
        r@ == u64_digits_of(n as u64),
{
    u64_string(n as u64)
}

} // verus!
