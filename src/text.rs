//! Decimal renderings of numbers for the battle log.
use vstd::prelude::*;

verus! {

pub open spec fn digit_char(d: int) -> char {
    seq!['0', '1', '2', '3', '4', '5', '6', '7', '8', '9'][d]
}

/// The decimal digits of `n`, without leading zeros.
pub open spec fn natural_text(n: nat) -> Seq<char>
    decreases n,
{
    if n < 10 {
        seq![digit_char(n as int)]
    } else {
        natural_text(n / 10).push(digit_char((n % 10) as int))
    }
}

/// `n` in decimal, with a minus sign when negative.
pub open spec fn int_text(n: int) -> Seq<char> {
    if n < 0 {
        seq!['-'] + natural_text((-n) as nat)
    } else {
        natural_text(n as nat)
    }
}

/// A length of `steps` thousandths of a unit, in units with one decimal,
/// rounded half up.
pub open spec fn tenths_text(steps: nat) -> Seq<char> {
    let tenths = (steps + 50) / 100;
    natural_text(tenths / 10) + seq!['.', digit_char((tenths % 10) as int)]
}

fn digit_str(d: u64) -> (r: &'static str)
    requires
        d < 10,
    ensures
        r@ == seq![digit_char(d as int)],
{
    match d {
        0 => {
            proof { reveal_strlit("0"); }
            "0"
        },
        1 => {
            proof { reveal_strlit("1"); }
            "1"
        },
        2 => {
            proof { reveal_strlit("2"); }
            "2"
        },
        3 => {
            proof { reveal_strlit("3"); }
            "3"
        },
        4 => {
            proof { reveal_strlit("4"); }
            "4"
        },
        5 => {
            proof { reveal_strlit("5"); }
            "5"
        },
        6 => {
            proof { reveal_strlit("6"); }
            "6"
        },
        7 => {
            proof { reveal_strlit("7"); }
            "7"
        },
        8 => {
            proof { reveal_strlit("8"); }
            "8"
        },
        _ => {
            proof { reveal_strlit("9"); }
            "9"
        },
    }
}

/// The decimal digits of `n`.
pub fn natural_string(n: u64) -> (r: String)
    ensures
        r@ == natural_text(n as nat),
    decreases n,
{
    if n < 10 {
        digit_str(n).to_owned()
    } else {
        let mut s = natural_string(n / 10);
        s.append(digit_str(n % 10));
        s
    }
}

/// `n` in decimal, with a minus sign when negative.
pub fn int_string(n: i64) -> (r: String)
    ensures
        r@ == int_text(n as int),
{
    if n < 0 {
        let magnitude = (-(n as i128)) as u64;
        let digits = natural_string(magnitude);
        proof { reveal_strlit("-"); }
        let s = "-".to_owned();
        s.concat(digits.as_str())
    } else {
        natural_string(n as u64)
    }
}

/// A length of `steps` thousandths of a unit, in units with one decimal.
pub fn tenths_string(steps: u64) -> (r: String)
    ensures
        r@ == tenths_text(steps as nat),
{
    let tenths = steps / 100 + if steps % 100 >= 50 { 1 } else { 0 };
    assert(tenths == (steps + 50) / 100);
    let mut s = natural_string(tenths / 10);
    proof { reveal_strlit("."); }
    s.append(".");
    s.append(digit_str(tenths % 10));
    s
}

} // verus!
