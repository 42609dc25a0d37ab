//! Plain-text rendering of numbers.

use vstd::prelude::*;
use vstd::string::StringExecFns;

verus! {

/// The decimal digits of a natural number, most significant first.
pub open spec fn digits(n: nat) -> Seq<char>
    decreases n,
{
    let d = ((n % 10) as u8 + 48u8) as char;
    if n < 10 {
        seq![d]
    } else {
        digits(n / 10).push(d)
    }
}

/// An integer written in decimal, with a leading '-' when negative.
pub open spec fn decimal(x: int) -> Seq<char> {
    if x < 0 {
        seq!['-'] + digits((-x) as nat)
    } else {
        digits(x as nat)
    }
}

/// The one-character text of a decimal digit.
fn digit_text(d: u64) -> (r: &'static str)
    requires
        d < 10,
    ensures
        r@ == seq![(d as u8 + 48u8) as char],
{
    proof {
        reveal_strlit("0");
        reveal_strlit("1");
        reveal_strlit("2");
        reveal_strlit("3");
        reveal_strlit("4");
        reveal_strlit("5");
        reveal_strlit("6");
        reveal_strlit("7");
        reveal_strlit("8");
        reveal_strlit("9");
    }
    match d {
        0 => "0",
        1 => "1",
        2 => "2",
        3 => "3",
        4 => "4",
        5 => "5",
        6 => "6",
        7 => "7",
        8 => "8",
        _ => "9",
    }
}

/// `x` written in decimal.
pub fn decimal_text(x: i64) -> (r: String)
    ensures
        r@ == decimal(x as int),
{
    let n: u64 = if x < 0 {
        (-(x as i128)) as u64
    } else {
        x as u64
    };
    let mut m: u64 = n / 10;
    let mut s = String::from_str(digit_text(n % 10));
    proof {
        if n < 10 {
            assert(digits(n as nat) == s@);
        } else {
            assert(digits(n as nat) == digits(m as nat).push(((n % 10) as u8 + 48u8) as char));
            assert(digits(n as nat) =~= digits(m as nat) + s@);
        }
    }
    while m > 0
        invariant
            m > 0 ==> digits(n as nat) == digits(m as nat) + s@,
            m == 0 ==> digits(n as nat) == s@,
        decreases m,
    {
        let d = m % 10;
        let ghost old_s = s@;
        s = String::from_str(digit_text(d)).concat(s.as_str());
        proof {
            let c = (d as u8 + 48u8) as char;
            if m < 10 {
                assert(digits(m as nat) == seq![c]);
            } else {
                assert(digits(m as nat) == digits((m / 10) as nat).push(c));
                assert(digits(m as nat) + old_s =~= digits((m / 10) as nat) + s@);
            }
        }
        m = m / 10;
    }
    if x < 0 {
        let r = String::from_str("-").concat(s.as_str());
        proof {
            reveal_strlit("-");
        }
        r
    } else {
        s
    }
}

} // verus!
