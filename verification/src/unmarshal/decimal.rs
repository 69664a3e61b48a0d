//! The number grammar: an optional leading `-` followed by at least one
//! digit; a `.` demands at least one further digit and starts the
//! fraction; `e` or `E` demands an optional sign and at least one digit
//! and scales the mantissa by that power of ten. The digits are kept
//! exactly, so the resulting [`Decimal`] is the number the text denotes,
//! with no rounding (exponent digits accumulate only up to a cap far
//! beyond any representable magnitude).
use crate::chars::{digit_val, try_char_to_digit};
use crate::element::{dec_from_digits, norm_dec, DecV, Decimal};
use crate::unmarshal::i64::sp_digit_run;
use crate::unmarshal::unmarshal_iter::{sp_next_digit, Cur, UnmarshalIter};
use crate::unmarshal::unmarshalable::{UnmarshalError, Unmarshalable};
use vstd::prelude::*;

verus! {

/// What the number grammar read: the sign, the integer and fraction
/// digits, and the exponent.
pub ghost struct NumV {
    pub neg: bool,
    pub int_digits: Seq<u8>,
    pub frac_digits: Seq<u8>,
    pub has_frac: bool,
    pub exp_neg: bool,
    pub exp_val: i64,
    pub has_exp: bool,
}

impl NumV {
    pub open spec fn wf(self) -> bool {
        &&& forall|k: int| 0 <= k < self.int_digits.len() ==> self.int_digits[k] <= 9
        &&& forall|k: int| 0 <= k < self.frac_digits.len() ==> self.frac_digits[k] <= 9
        &&& 1 <= self.int_digits.len()
        &&& self.int_digits.len() + self.frac_digits.len() < 0xFFFF_FFFF
        &&& 0 <= self.exp_val <= 0x2800_0000_0000_0009
        &&& !self.has_frac ==> self.frac_digits.len() == 0
        &&& !self.has_exp ==> self.exp_val == 0 && !self.exp_neg
    }
}

/// The signed exponent the text asked for.
pub open spec fn signed_exp(n: NumV) -> int {
    if n.exp_neg {
        -(n.exp_val as int)
    } else {
        n.exp_val as int
    }
}

/// The decimal value a parsed number denotes: all its digits, scaled by
/// the asked-for exponent less the number of fraction digits.
pub open spec fn dec_of_num(n: NumV) -> DecV {
    norm_dec(n.neg, n.int_digits + n.frac_digits, signed_exp(n) - n.frac_digits.len())
}

/// Exponent digits accumulate decimally, but stop growing past a cap far
/// beyond any exponent a finite text could meaningfully ask for.
pub open spec fn sp_exp_digits(c: Cur, acc: i64) -> (Cur, i64)
    decreases c.s.len() - c.i,
{
    match c.peek() {
        Some(ch) => match digit_val(ch, 10) {
            Some(d) => {
                let acc2: i64 = if acc <= 0x0400_0000_0000_0000i64 {
                    (acc * 10 + d) as i64
                } else {
                    acc
                };
                sp_exp_digits(c.adv(), acc2)
            },
            None => (c, acc),
        },
        None => (c, acc),
    }
}

/// The exponent after `e`/`E`: an optional sign, then at least one digit.
pub open spec fn sp_exponent(c: Cur) -> (Cur, Result<(bool, i64), UnmarshalError>) {
    match c.peek() {
        None => (c, Err(UnmarshalError::EndOfChars)),
        Some(ch) => {
            if ch == '-' {
                let (c2, r) = sp_next_digit(c.adv(), 10);
                match r {
                    Err(e) => (c2, Err(e)),
                    Ok(d) => {
                        let (c3, v) = sp_exp_digits(c2, d as i64);
                        (c3, Ok((true, v)))
                    },
                }
            } else if ch == '+' {
                let (c2, r) = sp_next_digit(c.adv(), 10);
                match r {
                    Err(e) => (c2, Err(e)),
                    Ok(d) => {
                        let (c3, v) = sp_exp_digits(c2, d as i64);
                        (c3, Ok((false, v)))
                    },
                }
            } else {
                match digit_val(ch, 10) {
                    Some(d) => {
                        let (c3, v) = sp_exp_digits(c.adv(), d as i64);
                        (c3, Ok((false, v)))
                    },
                    None => (c.adv(), Err(c.adv().unexpected(Some(ch)))),
                }
            }
        },
    }
}

/// The tail of a number: an optional exponent part.
pub open spec fn sp_number_exp(c: Cur, neg: bool, ids: Seq<u8>, fds: Seq<u8>, has_frac: bool) -> (
    Cur,
    Result<NumV, UnmarshalError>,
) {
    let done = NumV {
        neg,
        int_digits: ids,
        frac_digits: fds,
        has_frac,
        exp_neg: false,
        exp_val: 0,
        has_exp: false,
    };
    match c.peek() {
        Some(ch) => {
            if ch == 'e' || ch == 'E' {
                let (c2, r) = sp_exponent(c.adv());
                match r {
                    Err(e) => (c2, Err(e)),
                    Ok(ev) => (
                        c2,
                        Ok(
                            NumV {
                                neg,
                                int_digits: ids,
                                frac_digits: fds,
                                has_frac,
                                exp_neg: ev.0,
                                exp_val: ev.1,
                                has_exp: true,
                            },
                        ),
                    ),
                }
            } else {
                (c, Ok(done))
            }
        },
        None => (c, Ok(done)),
    }
}

/// A number: any whitespace, an optional minus sign, at least one integer
/// digit, an optional fraction demanding at least one digit, and an
/// optional exponent.
pub open spec fn sp_number(c: Cur) -> (Cur, Result<NumV, UnmarshalError>) {
    let c1 = c.skip_ws();
    let neg = c1.peek() == Some('-');
    let c2 = if neg {
        c1.adv()
    } else {
        c1
    };
    let (c3, r0) = sp_next_digit(c2, 10);
    match r0 {
        Err(e) => (c3, Err(e)),
        Ok(d0) => {
            let (c4, ids) = sp_digit_run(c3, seq![d0 as u8]);
            if c4.peek() == Some('.') {
                let (c5, rf) = sp_next_digit(c4.adv(), 10);
                match rf {
                    Err(e) => (c5, Err(e)),
                    Ok(f0) => {
                        let (c6, fds) = sp_digit_run(c5, seq![f0 as u8]);
                        sp_number_exp(c6, neg, ids, fds, true)
                    },
                }
            } else {
                sp_number_exp(c4, neg, ids, Seq::empty(), false)
            }
        },
    }
}

/// What the number grammar read, in executable form.
pub struct NumParts {
    pub neg: bool,
    pub int_digits: Vec<u8>,
    pub frac_digits: Vec<u8>,
    pub has_frac: bool,
    pub exp_neg: bool,
    pub exp_val: i64,
    pub has_exp: bool,
}

impl View for NumParts {
    type V = NumV;

    open spec fn view(&self) -> NumV {
        NumV {
            neg: self.neg,
            int_digits: self.int_digits@,
            frac_digits: self.frac_digits@,
            has_frac: self.has_frac,
            exp_neg: self.exp_neg,
            exp_val: self.exp_val,
            has_exp: self.has_exp,
        }
    }
}

/// Reads an exponent after its `e`/`E` was consumed: an optional sign,
/// then at least one digit.
#[verifier::loop_isolation(false)]
pub(crate) fn try_unmarshal_exponent(u: &mut UnmarshalIter) -> (r: Result<
    (bool, i64),
    UnmarshalError,
>)
    requires
        old(u).wf(),
    ensures
        final(u).wf(),
        final(u)@.s == old(u)@.s,
        old(u)@.i <= final(u)@.i,
        final(u)@ == sp_exponent(old(u)@).0,
        r == sp_exponent(old(u)@).1,
        r matches Ok(v) ==> 0 <= v.1 <= 0x2800_0000_0000_0009,
{
    let (first, exp_neg) = match u.next() {
        None => {
            return Err(UnmarshalError::EndOfChars);
        },
        Some('-') => {
            let d = u.try_next_digit(10)?;
            (d, true)
        },
        Some('+') => {
            let d = u.try_next_digit(10)?;
            (d, false)
        },
        Some(ch) => {
            match try_char_to_digit(Some(ch), 10) {
                Some(d) => (d, false),
                None => {
                    return Err(u.unexpected_char(ch));
                },
            }
        },
    };
    let ghost c2 = u@;
    let mut ev: i64 = first as i64;
    loop
        invariant
            u.wf(),
            u@.s == old(u)@.s,
            c2.i <= u@.i,
            0 <= ev <= 0x2800_0000_0000_0009,
            sp_exp_digits(u@, ev) == sp_exp_digits(c2, first as i64),
        decreases u@.s.len() - u@.i,
    {
        let p = u.peek();
        match try_char_to_digit(p, 10) {
            Some(d) => {
                if ev <= 0x0400_0000_0000_0000 {
                    ev = ev * 10 + (d as i64);
                }
                u.next();
            },
            None => {
                return Ok((exp_neg, ev));
            },
        }
    }
}

/// Reads one complete number, keeping its digits exactly.
#[verifier::loop_isolation(false)]
pub(crate) fn read_number(u: &mut UnmarshalIter) -> (r: Result<NumParts, UnmarshalError>)
    requires
        old(u).wf(),
    ensures
        final(u).wf(),
        final(u)@.s == old(u)@.s,
        old(u)@.i <= final(u)@.i,
        r is Ok ==> old(u)@.i < final(u)@.i,
        final(u)@ == sp_number(old(u)@).0,
        match r {
            Ok(p) => sp_number(old(u)@).1 == Ok::<NumV, UnmarshalError>(p@) && p@.wf(),
            Err(e) => sp_number(old(u)@).1 == Err::<NumV, UnmarshalError>(e),
        },
{
    proof {
        crate::unmarshal::unmarshal_iter::lemma_skip_ws(old(u)@);
    }
    let neg = match u.peek_non_whitespace() {
        Some('-') => {
            u.next();
            true
        },
        _ => false,
    };
    let d0 = u.try_next_digit(10)?;
    let ghost c3 = u@;
    let ghost ids0: Seq<u8> = seq![d0 as u8];
    let mut ids: Vec<u8> = Vec::new();
    ids.push(d0 as u8);
    proof {
        assert(ids@ =~= ids0);
    }
    loop
        invariant
            u.wf(),
            u@.s == old(u)@.s,
            c3.i <= u@.i,
            1 <= ids@.len() <= u@.i,
            forall|k: int| 0 <= k < ids@.len() ==> #[trigger] ids@[k] <= 9,
            sp_digit_run(u@, ids@) == sp_digit_run(c3, ids0),
        decreases u@.s.len() - u@.i,
    {
        let p = u.peek();
        match try_char_to_digit(p, 10) {
            Some(d) => {
                ids.push(d as u8);
                u.next();
                proof {
                    assert(ids@.drop_last() =~= ids@.subrange(0, ids@.len() - 1));
                }
            },
            None => {
                break ;
            },
        }
    }
    let ghost c4 = u@;
    let ghost gids = ids@;
    let mut fds: Vec<u8> = Vec::new();
    let mut has_frac = false;
    let is_dot = match u.peek() {
        Some('.') => true,
        _ => false,
    };
    if is_dot {
        has_frac = true;
        u.next();
        let f0 = u.try_next_digit(10)?;
        let ghost c5 = u@;
        let ghost fds0: Seq<u8> = seq![f0 as u8];
        fds.push(f0 as u8);
        proof {
            assert(fds@ =~= fds0);
        }
        loop
            invariant
                u.wf(),
                u@.s == old(u)@.s,
                c5.i <= u@.i,
                ids@ == gids,
                has_frac,
                1 <= fds@.len(),
                gids.len() + fds@.len() <= u@.i,
                forall|k: int| 0 <= k < fds@.len() ==> #[trigger] fds@[k] <= 9,
                sp_digit_run(u@, fds@) == sp_digit_run(c5, fds0),
            decreases u@.s.len() - u@.i,
        {
            let p = u.peek();
            match try_char_to_digit(p, 10) {
                Some(d) => {
                    fds.push(d as u8);
                    u.next();
                    proof {
                        assert(fds@.drop_last() =~= fds@.subrange(0, fds@.len() - 1));
                    }
                },
                None => {
                    break ;
                },
            }
        }
    }
    let mut has_exp = false;
    let mut exp_neg = false;
    let mut exp_val: i64 = 0;
    let is_exp = match u.peek() {
        Some('e') => true,
        Some('E') => true,
        _ => false,
    };
    if is_exp {
        has_exp = true;
        u.next();
        let ev = try_unmarshal_exponent(u)?;
        exp_neg = ev.0;
        exp_val = ev.1;
    }
    Ok(NumParts { neg, int_digits: ids, frac_digits: fds, has_frac, exp_neg, exp_val, has_exp })
}

/// Builds the decimal a parsed number denotes.
pub(crate) fn parts_to_decimal(p: NumParts) -> (d: Decimal)
    requires
        p@.wf(),
    ensures
        d.wf(),
        d@ == dec_of_num(p@),
{
    let ghost gp = p@;
    let mut digits = p.int_digits;
    let mut fds = p.frac_digits;
    let frac_len = fds.len();
    digits.append(&mut fds);
    let se: i64 = if p.exp_neg {
        -p.exp_val
    } else {
        p.exp_val
    };
    let e: i64 = se - (frac_len as i64);
    proof {
        assert(digits@ == gp.int_digits + gp.frac_digits);
        assert(e as int == signed_exp(gp) - gp.frac_digits.len());
    }
    dec_from_digits(p.neg, digits, e)
}

impl Unmarshalable for Decimal {
    open spec fn sp_parse(c: Cur) -> (Cur, Result<DecV, UnmarshalError>) {
        let (c2, r) = sp_number(c);
        match r {
            Err(e) => (c2, Err(e)),
            Ok(n) => (c2, Ok(dec_of_num(n))),
        }
    }

    fn unmarshal_json_with_state(u: &mut UnmarshalIter) -> (r: Result<Decimal, UnmarshalError>) {
        let parts = read_number(u)?;
        Ok(parts_to_decimal(parts))
    }
}

} // verus!
