//! Decimal numbers serialize positionally, as the platform's shortest
//! float text would: the significant digits with trailing zeros appended
//! for a non-negative power of ten, or split around (or preceded by) a
//! decimal point for a negative one; a whole-number value prints without a
//! decimal point, and zero prints as `0` (`-0` when negative).
use crate::element::{DecV, Decimal};
use crate::marshal::i64::{digit_char, digit_char_of};
use crate::marshal::marshalable::{push_char, Marshalable};
use vstd::prelude::*;

verus! {

/// A run of `m` zero characters.
pub open spec fn zeros(m: int) -> Seq<char>
    decreases m,
{
    if m <= 0 {
        Seq::empty()
    } else {
        zeros(m - 1).push('0')
    }
}

/// The characters of a digit run.
pub open spec fn digit_chars(ds: Seq<u8>) -> Seq<char>
    decreases ds,
{
    if ds.len() == 0 {
        Seq::empty()
    } else {
        digit_chars(ds.drop_last()).push(digit_char(ds.last() as int))
    }
}

/// The text of a decimal value `m * 10^exp`.
pub open spec fn dec_text(d: DecV) -> Seq<char> {
    let n = d.digits.len() as int;
    let sign: Seq<char> = if d.neg {
        seq!['-']
    } else {
        Seq::empty()
    };
    if n == 0 {
        sign + seq!['0']
    } else if d.exp >= 0 {
        sign + digit_chars(d.digits) + zeros(d.exp)
    } else if n + d.exp > 0 {
        sign + digit_chars(d.digits.take(n + d.exp)) + seq!['.'] + digit_chars(
            d.digits.skip(n + d.exp),
        )
    } else {
        sign + seq!['0', '.'] + zeros(-(n + d.exp)) + digit_chars(d.digits)
    }
}

/// Appends the characters of the digit run `ds[from..to]`.
fn push_digit_range(ds: &Vec<u8>, from: usize, to: usize, s: &mut String)
    requires
        from <= to <= ds@.len(),
    ensures
        final(s)@ == old(s)@ + digit_chars(ds@.subrange(from as int, to as int)),
{
    let mut k: usize = from;
    while k < to
        invariant
            from <= k <= to <= ds@.len(),
            s@ == old(s)@ + digit_chars(ds@.subrange(from as int, k as int)),
        decreases to - k,
    {
        push_char(s, digit_char_of(ds[k] as u64));
        proof {
            assert(ds@.subrange(from as int, k + 1 as int).drop_last() =~= ds@.subrange(
                from as int,
                k as int,
            ));
            assert(s@ =~= old(s)@ + digit_chars(ds@.subrange(from as int, k + 1 as int)));
        }
        k = k + 1;
    }
}

/// Appends `m` zero characters.
fn push_zeros(m: u64, s: &mut String)
    ensures
        final(s)@ == old(s)@ + zeros(m as int),
{
    let mut k: u64 = 0;
    while k < m
        invariant
            0 <= k <= m,
            s@ == old(s)@ + zeros(k as int),
        decreases m - k,
    {
        push_char(s, '0');
        proof {
            assert(s@ =~= old(s)@ + zeros(k + 1 as int));
        }
        k = k + 1;
    }
}

impl Marshalable for Decimal {
    open spec fn json_text(&self) -> Seq<char> {
        dec_text(self@)
    }

    fn marshal_json_into(&self, s: &mut String) {
        if self.is_neg() {
            push_char(s, '-');
        }
        let ds = self.significant_digits();
        let n = ds.len();
        if n == 0 {
            push_char(s, '0');
            proof {
                assert(s@ =~= old(s)@ + self.json_text());
            }
        } else {
            let e = self.power_of_ten();
            if e >= 0 {
                push_digit_range(ds, 0, n, s);
                push_zeros(e as u64, s);
                proof {
                    assert(ds@.subrange(0, n as int) =~= ds@);
                    assert(s@ =~= old(s)@ + self.json_text());
                }
            } else {
                let t: i128 = n as i128 + e as i128;
                if t > 0 {
                    let split = t as usize;
                    push_digit_range(ds, 0, split, s);
                    push_char(s, '.');
                    push_digit_range(ds, split, n, s);
                    proof {
                        assert(ds@.subrange(0, t as int) =~= ds@.take(
                            ds@.len() + self@.exp,
                        ));
                        assert(ds@.subrange(t as int, n as int) =~= ds@.skip(
                            ds@.len() + self@.exp,
                        ));
                        assert(s@ =~= old(s)@ + self.json_text());
                    }
                } else {
                    push_char(s, '0');
                    push_char(s, '.');
                    push_zeros((-t) as u64, s);
                    push_digit_range(ds, 0, n, s);
                    proof {
                        assert(ds@.subrange(0, n as int) =~= ds@);
                        assert(s@ =~= old(s)@ + self.json_text());
                    }
                }
            }
        }
    }
}

} // verus!
