//! Decimal rendering of thread ids, used to build thread display names.

use vstd::prelude::*;

verus! {

/// The character of one decimal digit.
pub open spec fn digit_char(d: nat) -> char {
    if d == 0 {
        '0'
    } else if d == 1 {
        '1'
    } else if d == 2 {
        '2'
    } else if d == 3 {
        '3'
    } else if d == 4 {
        '4'
    } else if d == 5 {
        '5'
    } else if d == 6 {
        '6'
    } else if d == 7 {
        '7'
    } else if d == 8 {
        '8'
    } else {
        '9'
    }
}

/// The usual decimal rendering of a number, without leading zeros.
pub open spec fn dec_str(v: nat) -> Seq<char>
    decreases v,
{
    if v < 10 {
        seq![digit_char(v)]
    } else {
        dec_str(v / 10).push(digit_char(v % 10))
    }
}

/// Append one digit character.
fn push_digit(s: &mut String, d: u64)
    requires
        d < 10,
    ensures
        final(s)@ == old(s)@.push(digit_char(d as nat)),
{
    let ds: &str = if d == 0 {
        "0"
    } else if d == 1 {
        "1"
    } else if d == 2 {
        "2"
    } else if d == 3 {
        "3"
    } else if d == 4 {
        "4"
    } else if d == 5 {
        "5"
    } else if d == 6 {
        "6"
    } else if d == 7 {
        "7"
    } else if d == 8 {
        "8"
    } else {
        "9"
    };
    proof {
        reveal_strlit("0");
        reveal_strlit("1");
        reveal_strlit("2");
        reveal_strlit("3");
        reveal_strlit("4");
        reveal_strlit("5");
        reveal_strlit("6");
        reveal_strlit("7");
        reveal_strlit("8");
        reveal_strlit("9");
        assert(ds@ =~= seq![digit_char(d as nat)]);
    }
    s.append(ds);
    proof {
        assert(final(s)@ =~= old(s)@.push(digit_char(d as nat)));
    }
}

/// Render a value in decimal.
pub fn u64_to_dec(v: u64) -> (r: String)
    ensures
        r@ == dec_str(v as nat),
    decreases v,
{
    if v < 10 {
        let mut s = String::new();
        push_digit(&mut s, v);
        proof {
            assert(s@ =~= dec_str(v as nat));
        }
        s
    } else {
        let mut s = u64_to_dec(v / 10);
        push_digit(&mut s, v % 10);
        s
    }
}

} // verus!
