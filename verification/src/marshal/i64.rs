//! Integers serialize to canonical base-10 text: no leading zeros, a
//! leading `-` for negative values, and `0` for zero.
use crate::marshal::marshalable::{push_char, Marshalable};
use vstd::prelude::*;

verus! {

/// The character for a decimal digit value.
pub open spec fn digit_char(d: int) -> char {
    if d == 0 {
        '0'
    } else if d == 1 {
        '1'
    } else if d == 2 {
        '2'
    } else if d == 3 {
        '3'
    } else if d == 4 {
        '4'
    } else if d == 5 {
        '5'
    } else if d == 6 {
        '6'
    } else if d == 7 {
        '7'
    } else if d == 8 {
        '8'
    } else {
        '9'
    }
}

/// The canonical base-10 text of a non-negative integer.
pub open spec fn nat_text(n: int) -> Seq<char>
    decreases n,
{
    if n < 10 {
        seq![digit_char(n)]
    } else {
        nat_text(n / 10).push(digit_char(n % 10))
    }
}

/// The canonical base-10 text of an integer.
pub open spec fn int_text(v: int) -> Seq<char> {
    if v < 0 {
        seq!['-'] + nat_text(-v)
    } else {
        nat_text(v)
    }
}

/// The character for a decimal digit value (`9` for anything larger).
pub(crate) fn digit_char_of(d: u64) -> (r: char)
    ensures
        r == digit_char(d as int),
{
    if d == 0 {
        '0'
    } else if d == 1 {
        '1'
    } else if d == 2 {
        '2'
    } else if d == 3 {
        '3'
    } else if d == 4 {
        '4'
    } else if d == 5 {
        '5'
    } else if d == 6 {
        '6'
    } else if d == 7 {
        '7'
    } else if d == 8 {
        '8'
    } else {
        '9'
    }
}

/// Appends the canonical base-10 text of `n`.
pub(crate) fn push_nat(n: u64, s: &mut String)
    ensures
        final(s)@ == old(s)@ + nat_text(n as int),
    decreases n,
{
    if n < 10 {
        push_char(s, digit_char_of(n));
        proof {
            assert(s@ =~= old(s)@ + nat_text(n as int));
        }
    } else {
        push_nat(n / 10, s);
        push_char(s, digit_char_of(n % 10));
        proof {
            assert(s@ =~= old(s)@ + nat_text(n as int));
        }
    }
}

impl Marshalable for i64 {
    open spec fn json_text(&self) -> Seq<char> {
        int_text(*self as int)
    }

    fn marshal_json_into(&self, s: &mut String) {
        if *self < 0 {
            push_char(s, '-');
            let m: u64 = (-(*self as i128)) as u64;
            push_nat(m, s);
            proof {
                assert(s@ =~= old(s)@ + self.json_text());
            }
        } else {
            push_nat(*self as u64, s);
        }
    }
}

} // verus!
