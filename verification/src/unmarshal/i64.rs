//! Integers parse as an optional `-` followed by at least one decimal
//! digit; the digits accumulate with wrapping 64-bit arithmetic, as the
//! machine's signed multiply-and-add would.
use crate::chars::{digit_val, try_char_to_digit};
use crate::unmarshal::unmarshal_iter::{sp_next_digit, Cur, UnmarshalIter};
use crate::unmarshal::unmarshalable::{UnmarshalError, Unmarshalable};
use vstd::prelude::*;

verus! {

/// One wrapping step of base-10 accumulation.
pub open spec fn wrap_mul_add(acc: i64, d: u8) -> i64 {
    vstd::wrapping::i64_specs::wrapping_add(
        vstd::wrapping::i64_specs::wrapping_mul(acc, 10),
        d as i64,
    )
}

/// The wrapping 64-bit value of a digit run, accumulated left to right.
pub open spec fn wrap_digits(ds: Seq<u8>) -> i64
    decreases ds,
{
    if ds.len() == 0 {
        0
    } else {
        wrap_mul_add(wrap_digits(ds.drop_last()), ds.last())
    }
}

/// The signed value: the wrapping negation of the accumulated digits when
/// a minus sign was read.
pub open spec fn wrap_signed(neg: bool, ds: Seq<u8>) -> i64 {
    if neg {
        vstd::wrapping::i64_specs::wrapping_mul(wrap_digits(ds), -1i64)
    } else {
        wrap_digits(ds)
    }
}

/// The longest run of decimal digits from the cursor, appended to `acc`.
pub open spec fn sp_digit_run(c: Cur, acc: Seq<u8>) -> (Cur, Seq<u8>)
    decreases c.s.len() - c.i,
{
    match c.peek() {
        Some(ch) => match digit_val(ch, 10) {
            Some(d) => sp_digit_run(c.adv(), acc.push(d as u8)),
            None => (c, acc),
        },
        None => (c, acc),
    }
}

/// An integer: any whitespace, an optional minus sign, then at least one
/// digit; the digits accumulate with wrapping arithmetic.
pub open spec fn sp_parse_i64(c: Cur) -> (Cur, Result<i64, UnmarshalError>) {
    let c1 = c.skip_ws();
    let neg = c1.peek() == Some('-');
    let c2 = if neg {
        c1.adv()
    } else {
        c1
    };
    let (c3, r) = sp_next_digit(c2, 10);
    match r {
        Err(e) => (c3, Err(e)),
        Ok(d0) => {
            let (c4, ds) = sp_digit_run(c3, seq![d0 as u8]);
            (c4, Ok(wrap_signed(neg, ds)))
        },
    }
}

impl Unmarshalable for i64 {
    open spec fn sp_parse(c: Cur) -> (Cur, Result<i64, UnmarshalError>) {
        sp_parse_i64(c)
    }

    #[verifier::loop_isolation(false)]
    fn unmarshal_json_with_state(u: &mut UnmarshalIter) -> (r: Result<i64, UnmarshalError>) {
        proof {
            crate::unmarshal::unmarshal_iter::lemma_skip_ws(old(u)@);
        }
        let neg = match u.peek_non_whitespace() {
            Some('-') => {
                u.next();
                true
            },
            _ => false,
        };
        let d0 = match u.try_next_digit(10) {
            Ok(d) => d,
            Err(e) => {
                return Err(e);
            },
        };
        let ghost c3 = u@;
        let ghost ds0: Seq<u8> = seq![d0 as u8];
        proof {
            assert(ds0.drop_last() =~= Seq::<u8>::empty());
            assert(d0 < 10);
            assert(vstd::wrapping::i64_specs::wrapping_mul(0i64, 10i64) == 0i64);
            assert(vstd::wrapping::i64_specs::wrapping_add(0i64, d0 as i64) == d0 as i64);
            assert(ds0.len() == 1);
            assert(ds0.last() == d0 as u8);
            assert(wrap_digits(Seq::<u8>::empty()) == 0);
            assert(wrap_digits(ds0.drop_last()) == 0);
            assert(wrap_digits(ds0) == wrap_mul_add(0i64, d0 as u8));
        }
        let mut acc: i64 = d0 as i64;
        let ghost mut ds = ds0;
        loop
            invariant
                u.wf(),
                u@.s == old(u)@.s,
                c3.i <= u@.i,
                ds.len() > 0,
                acc == wrap_digits(ds),
                sp_digit_run(u@, ds) == sp_digit_run(c3, ds0),
            decreases u@.s.len() - u@.i,
        {
            let p = u.peek();
            match try_char_to_digit(p, 10) {
                Some(d) => {
                    acc = acc.wrapping_mul(10).wrapping_add(d as i64);
                    u.next();
                    proof {
                        let ds_before = ds;
                        ds = ds.push(d as u8);
                        assert(ds.drop_last() =~= ds_before);
                    }
                },
                None => {
                    if neg {
                        return Ok(acc.wrapping_mul(-1));
                    } else {
                        return Ok(acc);
                    }
                },
            }
        }
    }
}

} // verus!
