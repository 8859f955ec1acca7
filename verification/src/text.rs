//! Numbers in words.

use vstd::prelude::*;

verus! {

/// The decimal digits of a number, without leading zeros.
pub open spec fn decimal(n: nat) -> Seq<char>
    decreases n,
{
    if n < 10 {
        seq!["0123456789"@[n as int]]
    } else {
        decimal(n / 10).push("0123456789"@[(n % 10) as int])
    }
}

/// Writes a number in decimal digits.
pub fn decimal_text(n: u64) -> (text: String)
    ensures
        text@ == decimal(n as nat),
    decreases n,
{
    let digit: usize = (n % 10) as usize;
    proof {
        reveal_strlit("0123456789");
    }
    let mut text: String = if n < 10 {
        String::new()
    } else {
        decimal_text(n / 10)
    };
    text.append("0123456789".substring_char(digit, digit + 1));
    proof {
        assert(text@ =~= decimal(n as nat));
    }
    text
}

} // verus!
