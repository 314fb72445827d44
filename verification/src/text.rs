//! Numbers inside messages.
use vstd::prelude::*;
use vstd::string::*;

verus! {

/// The digit `d` in a base up to 16, as a one-character text.
pub open spec fn digit_text(d: int) -> Seq<char> {
    "0123456789abcdef"@.subrange(d, d + 1)
}

/// `n` in decimal, without leading zeros.
pub open spec fn decimal_text(n: nat) -> Seq<char>
    decreases n,
{
    if n < 10 {
        digit_text(n as int)
    } else {
        decimal_text(n / 10) + digit_text((n % 10) as int)
    }
}

/// A byte as two lower-case hexadecimal digits.
pub open spec fn hex_text(b: u8) -> Seq<char> {
    digit_text(b as int / 16) + digit_text(b as int % 16)
}

/// The digit `d` as text.
fn digit(d: u8) -> (t: &'static str)
    requires
        d < 16,
    ensures
        t@ == digit_text(d as int),
{
    let digits: &'static str = "0123456789abcdef";
    proof {
        reveal_strlit("0123456789abcdef");
    }
    digits.substring_char(d as usize, d as usize + 1)
}

/// A byte in decimal.
pub(crate) fn decimal(b: u8) -> (t: String)
    ensures
        t@ == decimal_text(b as nat),
{
    proof {
        reveal_with_fuel(decimal_text, 3);
    }
    if b < 10 {
        String::from_str(digit(b))
    } else if b < 100 {
        String::from_str(digit(b / 10)).concat(digit(b % 10))
    } else {
        String::from_str(digit(b / 100)).concat(digit(b / 10 % 10)).concat(digit(b % 10))
    }
}

/// A byte as two hexadecimal digits.
pub(crate) fn hex(b: u8) -> (t: String)
    ensures
        t@ == hex_text(b),
{
    String::from_str(digit(b / 16)).concat(digit(b % 16))
}

} // verus!
