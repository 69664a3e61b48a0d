//! The laws tying the two engines together: serializing any well-formed
//! value and parsing the text back yields the value again, provided every
//! number in it prints in a form that parses back to the same variant.
use crate::chars::{digit_val, is_ws};
use crate::element::{norm_dec, DecV, ValV};
use crate::marshal::decimal::{dec_text, digit_chars, zeros};
use crate::marshal::i64::{digit_char, int_text, nat_text};
use crate::marshal::bool::bool_text;
use crate::marshal::element::txt_value;
use crate::marshal::list::join_comma;
use crate::marshal::null::null_text;
use crate::marshal::string::{esc_char, escs, hex4, hex_char, string_text};
use crate::unmarshal::bool::sp_parse_bool;
use crate::unmarshal::null::sp_parse_null;
use crate::unmarshal::i64::{sp_digit_run, wrap_digits, wrap_mul_add, wrap_signed};
use crate::unmarshal::string::{sp_hex4, sp_parse_string, sp_string_body, sp_unicode_escape};
use crate::unmarshal::unmarshal_iter::Cur;
use crate::unmarshal::unmarshalable::UnmarshalError;
use vstd::prelude::*;

verus! {

broadcast use vstd::seq::group_seq_axioms;

/// The decimal digits of a non-negative integer, most significant first.
pub open spec fn digits_of(n: int) -> Seq<u8>
    decreases n,
{
    if n < 10 {
        seq![n as u8]
    } else {
        digits_of(n / 10).push((n % 10) as u8)
    }
}

/// The integer written by a digit run.
pub open spec fn val_digits(ds: Seq<u8>) -> int
    decreases ds,
{
    if ds.len() == 0 {
        0
    } else {
        val_digits(ds.drop_last()) * 10 + ds.last()
    }
}

/// The canonical text of `n` is exactly its digit run, whose value is `n`.
pub proof fn lemma_digits_of(n: int)
    requires
        0 <= n,
    ensures
        nat_text(n) == digit_chars(digits_of(n)),
        val_digits(digits_of(n)) == n,
        digits_of(n).len() >= 1,
        forall|k: int| 0 <= k < digits_of(n).len() ==> #[trigger] digits_of(n)[k] <= 9,
        n >= 1 ==> digits_of(n)[0] != 0,
    decreases n,
{
    if n < 10 {
        assert(digits_of(n) =~= seq![n as u8]);
        assert(digits_of(n).drop_last() =~= Seq::<u8>::empty());
        assert(digits_of(n).last() == n as u8);
        assert(digit_chars(digits_of(n)) == digit_chars(Seq::<u8>::empty()).push(
            digit_char(n as u8 as int),
        ));
        assert(val_digits(digits_of(n)) == val_digits(Seq::<u8>::empty()) * 10 + n as u8);
        assert(nat_text(n) =~= digit_chars(digits_of(n)));
    } else {
        lemma_digits_of(n / 10);
        let ds = digits_of(n);
        assert(ds.drop_last() =~= digits_of(n / 10));
        assert(ds.last() == (n % 10) as u8);
        assert(nat_text(n) =~= digit_chars(ds));
        assert(ds[0] == digits_of(n / 10)[0]);
        assert(n / 10 >= 1);
    }
}

/// A digit run whose value fits the shifted 64-bit range accumulates,
/// with wrapping arithmetic, to its value reduced into that range.
pub proof fn lemma_wrap_digits(ds: Seq<u8>)
    requires
        forall|k: int| 0 <= k < ds.len() ==> #[trigger] ds[k] <= 9,
        0 <= val_digits(ds) <= 0x8000_0000_0000_0000,
    ensures
        val_digits(ds) <= 0x7FFF_FFFF_FFFF_FFFF ==> wrap_digits(ds) == val_digits(ds),
        val_digits(ds) == 0x8000_0000_0000_0000 ==> wrap_digits(ds) == -0x8000_0000_0000_0000,
    decreases ds,
{
    if ds.len() > 0 {
        let dl = ds.drop_last();
        assert(val_digits(ds) == val_digits(dl) * 10 + ds.last());
        assert(val_digits(dl) >= 0) by {
            lemma_val_digits_nonneg(dl);
        }
        assert(val_digits(dl) <= 0x0CCC_CCCC_CCCC_CCCC) by {
            assert(val_digits(dl) * 10 <= val_digits(ds));
        }
        lemma_wrap_digits(dl);
        assert(wrap_digits(ds) == wrap_mul_add(wrap_digits(dl), ds.last()));
    }
}

/// Digit runs write non-negative integers.
pub proof fn lemma_val_digits_nonneg(ds: Seq<u8>)
    requires
        forall|k: int| 0 <= k < ds.len() ==> #[trigger] ds[k] <= 9,
    ensures
        val_digits(ds) >= 0,
    decreases ds,
{
    if ds.len() > 0 {
        lemma_val_digits_nonneg(ds.drop_last());
    }
}

/// Digit values are distinct characters, and reading a digit character
/// back as a digit gives the value it was written from.
pub proof fn lemma_digit_char_val(d: u8)
    requires
        d <= 9,
    ensures
        digit_val(digit_char(d as int), 10) == Some(d as u32),
        !is_ws(digit_char(d as int)),
{
}

/// The cons form of a digit run's text.
pub proof fn lemma_digit_chars_cons(ds: Seq<u8>)
    requires
        ds.len() > 0,
    ensures
        digit_chars(ds) == seq![digit_char(ds[0] as int)] + digit_chars(ds.drop_first()),
        digit_chars(ds).len() == ds.len(),
    decreases ds,
{
    if ds.len() == 1 {
        assert(ds.drop_last() =~= Seq::<u8>::empty());
        assert(ds.drop_first() =~= Seq::<u8>::empty());
        assert(digit_chars(ds) =~= seq![digit_char(ds[0] as int)] + digit_chars(ds.drop_first()));
    } else {
        lemma_digit_chars_cons(ds.drop_last());
        assert(ds.drop_last().drop_first() =~= ds.drop_first().drop_last());
        assert(ds.drop_last()[0] == ds[0]);
        assert(digit_chars(ds) == digit_chars(ds.drop_last()).push(digit_char(ds.last() as int)));
        assert(digit_chars(ds) =~= seq![digit_char(ds[0] as int)] + digit_chars(ds.drop_first()));
    }
}

/// Reading a digit run back: when the text of `ds` sits at the cursor and
/// the character after it (if any) is no digit, the run consumes exactly
/// that text and appends exactly `ds`.
pub proof fn lemma_rt_digit_run(ds: Seq<u8>, c: Cur, acc: Seq<u8>)
    requires
        forall|k: int| 0 <= k < ds.len() ==> #[trigger] ds[k] <= 9,
        0 <= c.i,
        c.i + ds.len() <= c.s.len(),
        c.s.subrange(c.i, c.i + ds.len()) == digit_chars(ds),
        c.i + ds.len() == c.s.len() || digit_val(c.s[c.i + ds.len()], 10) is None,
    ensures
        sp_digit_run(c, acc) == (
            Cur { s: c.s, i: c.i + ds.len(), row: sp_digit_run(c, acc).0.row, col: sp_digit_run(
                c,
                acc,
            ).0.col },
            acc + ds,
        ),
    decreases ds,
{
    lemma_digit_chars_cons_all(ds, c, acc);
}

/// The induction behind [`lemma_rt_digit_run`].
proof fn lemma_digit_chars_cons_all(ds: Seq<u8>, c: Cur, acc: Seq<u8>)
    requires
        forall|k: int| 0 <= k < ds.len() ==> #[trigger] ds[k] <= 9,
        0 <= c.i,
        c.i + ds.len() <= c.s.len(),
        c.s.subrange(c.i, c.i + ds.len()) == digit_chars(ds),
        c.i + ds.len() == c.s.len() || digit_val(c.s[c.i + ds.len()], 10) is None,
    ensures
        sp_digit_run(c, acc).0.s == c.s,
        sp_digit_run(c, acc).0.i == c.i + ds.len(),
        sp_digit_run(c, acc).1 == acc + ds,
    decreases ds,
{
    if ds.len() == 0 {
        assert(acc + ds =~= acc);
        match c.peek() {
            Some(ch) => {
                assert(digit_val(ch, 10) is None);
            },
            None => {},
        }
    } else {
        lemma_digit_chars_cons(ds);
        assert(c.s.subrange(c.i, c.i + ds.len())[0] == digit_chars(ds)[0]);
        assert(c.s[c.i] == digit_char(ds[0] as int));
        lemma_digit_char_val(ds[0]);
        assert(c.peek() == Some(digit_char(ds[0] as int)));
        let c2 = c.adv();
        assert(c2.s.subrange(c2.i, c2.i + ds.drop_first().len()) =~= digit_chars(
            ds.drop_first(),
        )) by {
            assert forall|k: int| 0 <= k < ds.len() - 1 implies c.s[c.i + 1 + k] == digit_chars(
                ds.drop_first(),
            )[k] by {
                assert(c.s.subrange(c.i, c.i + ds.len())[k + 1] == digit_chars(ds)[k + 1]);
                assert(digit_chars(ds)[k + 1] == (seq![digit_char(ds[0] as int)] + digit_chars(
                    ds.drop_first(),
                ))[k + 1]);
            }
        }
        lemma_digit_chars_cons_all(ds.drop_first(), c2, acc.push(ds[0]));
        assert(acc.push(ds[0]) + ds.drop_first() =~= acc + ds);
    }
}

/// A character that cannot continue a number: neither digit, decimal
/// point, nor exponent marker.
pub open spec fn num_stop(ch: char) -> bool {
    digit_val(ch, 10) is None && ch != '.' && ch != 'e' && ch != 'E'
}

/// `k` zero digits.
pub open spec fn rep0(k: int) -> Seq<u8> {
    Seq::new(if k >= 0 { k as nat } else { 0 }, |_j: int| 0u8)
}

/// A run of zero digits prints as that many zero characters.
pub proof fn lemma_zeros_rep0(k: int)
    requires
        0 <= k,
    ensures
        zeros(k) == digit_chars(rep0(k)),
        rep0(k).len() == k,
        forall|j: int| 0 <= j < k ==> #[trigger] rep0(k)[j] == 0u8,
    decreases k,
{
    if k == 0 {
        assert(rep0(0) =~= Seq::<u8>::empty());
        assert(zeros(0) =~= digit_chars(rep0(0)));
    } else {
        lemma_zeros_rep0(k - 1);
        assert(rep0(k).drop_last() =~= rep0(k - 1));
        assert(rep0(k).last() == 0u8);
        assert(digit_chars(rep0(k)) == digit_chars(rep0(k - 1)).push(digit_char(0)));
        assert(zeros(k) =~= digit_chars(rep0(k)));
    }
}

/// Digit runs print piecewise.
pub proof fn lemma_digit_chars_app(a: Seq<u8>, b: Seq<u8>)
    ensures
        digit_chars(a + b) == digit_chars(a) + digit_chars(b),
    decreases b,
{
    if b.len() == 0 {
        assert(a + b =~= a);
        assert(digit_chars(a) + digit_chars(b) =~= digit_chars(a));
    } else {
        lemma_digit_chars_app(a, b.drop_last());
        assert((a + b).drop_last() =~= a + b.drop_last());
        assert((a + b).last() == b.last());
        assert(digit_chars(a + b) == digit_chars(a + b.drop_last()).push(
            digit_char(b.last() as int),
        ));
        assert(digit_chars(a) + digit_chars(b) =~= digit_chars(a + b));
    }
}

/// Normalizing an already-normal digit run changes nothing.
pub proof fn lemma_norm_ident(neg: bool, ds: Seq<u8>, e: int)
    requires
        ds.len() > 0,
        ds[0] != 0,
        ds.last() != 0,
    ensures
        norm_dec(neg, ds, e) == (DecV { neg, digits: ds, exp: e }),
{
}

/// Leading zero digits normalize away without moving the exponent.
pub proof fn lemma_norm_drop0(neg: bool, k: int, ds: Seq<u8>, e: int)
    requires
        0 <= k,
    ensures
        norm_dec(neg, rep0(k) + ds, e) == norm_dec(neg, ds, e),
    decreases k,
{
    if k == 0 {
        assert(rep0(0) + ds =~= ds);
    } else {
        lemma_zeros_rep0(k);
        let all = rep0(k) + ds;
        assert(all[0] == 0u8);
        assert(all.len() > 0);
        assert(all.drop_first() =~= rep0(k - 1) + ds);
        lemma_norm_drop0(neg, k - 1, ds, e);
    }
}

/// Reading an integer's canonical text back through the number grammar
/// yields exactly that integer, with no fraction and no exponent.
#[verifier::rlimit(60)]
pub proof fn lemma_rt_int(i: i64, c: Cur)
    requires
        0 <= c.i,
        c.i + int_text(i as int).len() <= c.s.len(),
        c.s.subrange(c.i, c.i + int_text(i as int).len()) == int_text(i as int),
        c.i + int_text(i as int).len() == c.s.len() || num_stop(
            c.s[c.i + int_text(i as int).len()],
        ),
    ensures
        crate::unmarshal::decimal::sp_number(c).0.s == c.s,
        crate::unmarshal::decimal::sp_number(c).0.i == c.i + int_text(i as int).len(),
        crate::unmarshal::decimal::sp_number(c).1 matches Ok(n) && crate::unmarshal::element::num_value(
            crate::unmarshal::decimal::sp_number(c).1->Ok_0,
        ) == ValV::Int(i),
        crate::unmarshal::decimal::sp_number(c).1 matches Ok(n) ==> !n.has_frac && !n.has_exp,
{
    let t = int_text(i as int);
    let neg = i < 0;
    let m: int = if i < 0 {
        -(i as int)
    } else {
        i as int
    };
    lemma_digits_of(m);
    let ds = digits_of(m);
    let body = digit_chars(ds);
    // the sign character, when present, then the digit run
    assert(t == if neg {
        seq!['-'] + nat_text(m)
    } else {
        nat_text(m)
    });
    lemma_digit_chars_cons(ds);
    assert(c.s[c.i] == t[0]) by {
        assert(c.s.subrange(c.i, c.i + t.len())[0] == t[0]);
    }
    lemma_digit_char_val(ds[0]);
    if neg {
        assert(t[0] == '-');
        assert(!is_ws('-'));
        assert(c.skip_ws() == c);
        let c2 = c.adv();
        assert(c.peek() == Some('-'));
        assert(c.s[c.i + 1] == digit_char(ds[0] as int)) by {
            assert(c.s.subrange(c.i, c.i + t.len())[1] == t[1]);
            assert(t[1] == body[0]);
        }
        assert(c2.peek() == Some(digit_char(ds[0] as int)));
        let c3 = c2.adv();
        assert(c3.s.subrange(c3.i, c3.i + ds.drop_first().len()) =~= digit_chars(
            ds.drop_first(),
        )) by {
            assert forall|k: int| 0 <= k < ds.len() - 1 implies c.s[c.i + 2 + k] == digit_chars(
                ds.drop_first(),
            )[k] by {
                assert(c.s.subrange(c.i, c.i + t.len())[2 + k] == t[2 + k]);
                assert(t[2 + k] == body[1 + k]);
                assert(body[1 + k] == (seq![digit_char(ds[0] as int)] + digit_chars(
                    ds.drop_first(),
                ))[1 + k]);
            }
        }
        lemma_rt_digit_run(ds.drop_first(), c3, seq![ds[0]]);
        assert(seq![ds[0]] + ds.drop_first() =~= ds);
        let c4 = sp_digit_run(c3, seq![ds[0]]).0;
        assert(c4.i == c.i + t.len());
        assert(c4.peek() != Some('.') && c4.peek() != Some('e') && c4.peek() != Some('E')) by {
            match c4.peek() {
                Some(ch) => {
                    assert(ch == c.s[c.i + t.len()]);
                },
                None => {},
            }
        }
        lemma_val_wrap_roundtrip(i, ds);
    } else {
        assert(t == body);
        assert(t[0] == digit_char(ds[0] as int));
        assert(!is_ws(t[0]));
        assert(c.skip_ws() == c);
        assert(c.peek() == Some(digit_char(ds[0] as int)));
        assert(c.peek() != Some('-')) by {
            assert(digit_val('-', 10) is None);
        }
        let c3 = c.adv();
        assert(c3.s.subrange(c3.i, c3.i + ds.drop_first().len()) =~= digit_chars(
            ds.drop_first(),
        )) by {
            assert forall|k: int| 0 <= k < ds.len() - 1 implies c.s[c.i + 1 + k] == digit_chars(
                ds.drop_first(),
            )[k] by {
                assert(c.s.subrange(c.i, c.i + t.len())[1 + k] == t[1 + k]);
                assert(body[1 + k] == (seq![digit_char(ds[0] as int)] + digit_chars(
                    ds.drop_first(),
                ))[1 + k]);
            }
        }
        lemma_rt_digit_run(ds.drop_first(), c3, seq![ds[0]]);
        assert(seq![ds[0]] + ds.drop_first() =~= ds);
        let c4 = sp_digit_run(c3, seq![ds[0]]).0;
        assert(c4.i == c.i + t.len());
        assert(c4.peek() != Some('.') && c4.peek() != Some('e') && c4.peek() != Some('E')) by {
            match c4.peek() {
                Some(ch) => {
                    assert(ch == c.s[c.i + t.len()]);
                },
                None => {},
            }
        }
        lemma_val_wrap_roundtrip(i, ds);
    }
}

/// The wrapping accumulation of an integer's own digits restores it.
proof fn lemma_val_wrap_roundtrip(i: i64, ds: Seq<u8>)
    requires
        forall|k: int| 0 <= k < ds.len() ==> #[trigger] ds[k] <= 9,
        val_digits(ds) == if i < 0 {
            -(i as int)
        } else {
            i as int
        },
    ensures
        wrap_signed(i < 0, ds) == i,
{
    lemma_wrap_digits(ds);
}

/// Reading a fractional decimal's text back through the number grammar
/// yields exactly that decimal. A decimal prints with a decimal point
/// whenever it has digits and a negative power of ten.
#[verifier::rlimit(100)]
pub proof fn lemma_rt_dec(d: DecV, c: Cur)
    requires
        d.wf(),
        d.digits.len() > 0,
        d.exp < 0,
        0 <= c.i,
        c.i + dec_text(d).len() <= c.s.len(),
        c.s.subrange(c.i, c.i + dec_text(d).len()) == dec_text(d),
        c.i + dec_text(d).len() == c.s.len() || num_stop(c.s[c.i + dec_text(d).len()]),
    ensures
        crate::unmarshal::decimal::sp_number(c).0.s == c.s,
        crate::unmarshal::decimal::sp_number(c).0.i == c.i + dec_text(d).len(),
        crate::unmarshal::decimal::sp_number(c).1 matches Ok(n) && crate::unmarshal::element::num_value(
            crate::unmarshal::decimal::sp_number(c).1->Ok_0,
        ) == ValV::Float(d),
{
    let t = dec_text(d);
    let ds = d.digits;
    let n = ds.len() as int;
    let split = n + d.exp;
    let sign: Seq<char> = if d.neg {
        seq!['-']
    } else {
        Seq::<char>::empty()
    };
    let off = c.i + sign.len();
    // every character of the text is visible at its offset
    assert forall|k: int| 0 <= k < t.len() implies c.s[c.i + k] == t[k] by {
        assert(c.s.subrange(c.i, c.i + t.len())[k] == t[k]);
    }
    if split > 0 {
        let ids = ds.take(split);
        let fds = ds.skip(split);
        let body = digit_chars(ids) + seq!['.'] + digit_chars(fds);
        assert(t == sign + body);
        lemma_digit_chars_cons(ids);
        lemma_digit_chars_cons(fds);
        assert(ids[0] == ds[0] && ids[0] != 0);
        assert(ids + fds =~= ds);
        assert(fds.len() == n - split);
        lemma_norm_ident(d.neg, ds, d.exp);
        assert(norm_dec(d.neg, ids + fds, -(fds.len() as int)) == d);
        lemma_rt_dec_common(d, c, ids, fds, body);
    } else {
        let z = -split;
        let body = seq!['0', '.'] + zeros(z) + digit_chars(ds);
        assert(t == sign + body);
        lemma_zeros_rep0(z);
        lemma_digit_chars_app(rep0(z), ds);
        assert(zeros(z) + digit_chars(ds) =~= digit_chars(rep0(z) + ds));
        let ids = seq![0u8];
        let fds = rep0(z) + ds;
        assert(digit_chars(ids) =~= seq!['0']) by {
            assert(ids.len() == 1);
            assert(ids.drop_last() =~= Seq::<u8>::empty());
            assert(ids.last() == 0u8);
            assert(digit_chars(ids) == digit_chars(ids.drop_last()).push(digit_char(0)));
        }
        assert(body =~= digit_chars(ids) + seq!['.'] + digit_chars(fds));
        assert(fds.len() > 0);
        assert(fds[0] <= 9 && ids[0] <= 9);
        lemma_digit_chars_cons(fds);
        assert(ids + fds =~= rep0(z + 1) + ds);
        lemma_norm_drop0(d.neg, z + 1, ds, -(fds.len() as int));
        lemma_norm_ident(d.neg, ds, -(fds.len() as int));
        assert(-(fds.len() as int) == d.exp);
        assert(norm_dec(d.neg, ids + fds, -(fds.len() as int)) == d);
        lemma_rt_dec_common(d, c, ids, fds, digit_chars(ids) + seq!['.'] + digit_chars(fds));
    }
}

/// The shared shape of both decimal print forms: integer digits, a point,
/// fraction digits; parsing restores the decimal.
#[verifier::rlimit(100)]
proof fn lemma_rt_dec_common(d: DecV, c: Cur, ids: Seq<u8>, fds: Seq<u8>, body: Seq<char>)
    requires
        d.wf(),
        d.digits.len() > 0,
        d.exp < 0,
        ids.len() > 0,
        fds.len() > 0,
        forall|k: int| 0 <= k < ids.len() ==> #[trigger] ids[k] <= 9,
        forall|k: int| 0 <= k < fds.len() ==> #[trigger] fds[k] <= 9,
        body == digit_chars(ids) + seq!['.'] + digit_chars(fds),
        dec_text(d) == (if d.neg {
            seq!['-']
        } else {
            Seq::<char>::empty()
        }) + body,
        norm_dec(d.neg, ids + fds, -fds.len() as int) == d,
        0 <= c.i,
        c.i + dec_text(d).len() <= c.s.len(),
        c.s.subrange(c.i, c.i + dec_text(d).len()) == dec_text(d),
        c.i + dec_text(d).len() == c.s.len() || num_stop(c.s[c.i + dec_text(d).len()]),
    ensures
        crate::unmarshal::decimal::sp_number(c).0.s == c.s,
        crate::unmarshal::decimal::sp_number(c).0.i == c.i + dec_text(d).len(),
        crate::unmarshal::decimal::sp_number(c).1 matches Ok(n) && crate::unmarshal::element::num_value(
            crate::unmarshal::decimal::sp_number(c).1->Ok_0,
        ) == ValV::Float(d),
{
    let t = dec_text(d);
    let sign: Seq<char> = if d.neg {
        seq!['-']
    } else {
        Seq::<char>::empty()
    };
    let off = c.i + sign.len();
    assert forall|k: int| 0 <= k < t.len() implies c.s[c.i + k] == t[k] by {
        assert(c.s.subrange(c.i, c.i + t.len())[k] == t[k]);
    }
    lemma_digit_chars_cons(ids);
    lemma_digit_chars_cons(fds);
    lemma_digit_char_val(ids[0]);
    lemma_digit_char_val(fds[0]);
    assert(t[0] == if d.neg {
        '-'
    } else {
        digit_char(ids[0] as int)
    });
    assert(!is_ws(t[0]));
    assert(c.peek() == Some(t[0]));
    assert(c.skip_ws() == c);
    // the sign, if any, then the first integer digit
    let cm = if d.neg {
        c.adv()
    } else {
        c
    };
    assert(cm.i == off);
    assert(c.peek() == Some('-') <==> d.neg) by {
        if !d.neg {
            assert(digit_val('-', 10) is None);
        }
    }
    assert(cm.peek() == Some(digit_char(ids[0] as int))) by {
        assert(c.s[off] == t[sign.len() as int]);
        assert(body[0] == digit_char(ids[0] as int));
    }
    let c3 = cm.adv();
    // the remaining integer digits
    assert(c3.s.subrange(c3.i, c3.i + (ids.len() - 1)) =~= digit_chars(ids.drop_first())) by {
        assert forall|k: int| 0 <= k < ids.len() - 1 implies c.s[off + 1 + k] == digit_chars(
            ids.drop_first(),
        )[k] by {
            assert(c.s[off + 1 + k] == t[sign.len() + 1 + k]);
            assert(body[1 + k] == (seq![digit_char(ids[0] as int)] + digit_chars(
                ids.drop_first(),
            ))[1 + k]);
        }
    }
    assert(digit_val('.', 10) is None);
    assert(c.s[off + ids.len()] == '.') by {
        assert(c.s[off + ids.len()] == t[(sign.len() + ids.len()) as int]);
        assert(body[ids.len() as int] == '.');
    }
    lemma_rt_digit_run(ids.drop_first(), c3, seq![ids[0]]);
    assert(seq![ids[0]] + ids.drop_first() =~= ids);
    let c4 = sp_digit_run(c3, seq![ids[0]]).0;
    assert(c4.i == off + ids.len());
    assert(c4.peek() == Some('.'));
    // the point, then the first fraction digit
    let c5 = c4.adv();
    assert(c5.peek() == Some(digit_char(fds[0] as int))) by {
        assert(c.s[off + ids.len() + 1] == t[(sign.len() + ids.len() + 1) as int]);
        assert(body[(ids.len() + 1) as int] == digit_chars(fds)[0]);
    }
    let c6 = c5.adv();
    // the remaining fraction digits
    assert(c6.s.subrange(c6.i, c6.i + (fds.len() - 1)) =~= digit_chars(fds.drop_first())) by {
        assert forall|k: int| 0 <= k < fds.len() - 1 implies c.s[off + ids.len() + 2 + k]
            == digit_chars(fds.drop_first())[k] by {
            assert(c.s[off + ids.len() + 2 + k] == t[sign.len() + ids.len() + 2 + k]);
            assert(body[ids.len() + 2 + k] == (digit_chars(ids) + seq!['.'] + (seq![digit_char(
                fds[0] as int,
            )] + digit_chars(fds.drop_first())))[ids.len() + 2 + k]);
        }
    }
    assert(c6.i + (fds.len() - 1) == c.i + t.len());
    lemma_rt_digit_run(fds.drop_first(), c6, seq![fds[0]]);
    assert(seq![fds[0]] + fds.drop_first() =~= fds);
    let c7 = sp_digit_run(c6, seq![fds[0]]).0;
    assert(c7.i == c.i + t.len());
    assert(c7.peek() != Some('e') && c7.peek() != Some('E')) by {
        match c7.peek() {
            Some(ch) => {
                assert(ch == c.s[c.i + t.len()]);
            },
            None => {},
        }
    }
    let r = crate::unmarshal::decimal::sp_number(c).1;
    assert(r matches Ok(nv) && nv.int_digits == ids && nv.frac_digits == fds && nv.has_frac
        && !nv.has_exp && nv.neg == d.neg && nv.exp_val == 0 && !nv.exp_neg);
    assert(crate::unmarshal::decimal::dec_of_num(r->Ok_0) == norm_dec(
        d.neg,
        ids + fds,
        0 - fds.len(),
    ));
}

/// A concatenated text at a cursor splits into its two parts.
pub proof fn lemma_text_split(c: Cur, a: Seq<char>, b: Seq<char>)
    requires
        0 <= c.i,
        c.i + a.len() + b.len() <= c.s.len(),
        c.s.subrange(c.i, c.i + a.len() + b.len()) == a + b,
    ensures
        c.s.subrange(c.i, c.i + a.len()) == a,
        c.s.subrange(c.i + a.len(), c.i + a.len() + b.len()) == b,
{
    assert forall|k: int| 0 <= k < a.len() + b.len() implies c.s[c.i + k] == (a + b)[k] by {
        assert(c.s.subrange(c.i, c.i + a.len() + b.len())[k] == (a + b)[k]);
    }
    assert(c.s.subrange(c.i, c.i + a.len()) =~= a);
    assert forall|k: int|
        0 <= k < b.len() implies c.s.subrange(c.i + a.len(), c.i + a.len() + b.len())[k]
        == b[k] by {
        assert(c.s[c.i + (a.len() + k)] == (a + b)[a.len() + k]);
    }
    assert(c.s.subrange(c.i + a.len(), c.i + a.len() + b.len()) =~= b);
}

/// Reading a hexadecimal digit character back gives the value it was
/// written from.
pub proof fn lemma_hex_char_val(h: u32)
    requires
        h <= 15,
    ensures
        digit_val(hex_char(h as int), 16) == Some(h),
{
}

/// Reading four written hexadecimal digits back restores the value.
pub proof fn lemma_rt_hex4(v: u32, c: Cur)
    requires
        v < 0x10000,
        0 <= c.i,
        c.i + 4 <= c.s.len(),
        c.s.subrange(c.i, c.i + 4) == hex4(v as int),
    ensures
        sp_hex4(c).1 == Ok::<u32, UnmarshalError>(v),
        sp_hex4(c).0.s == c.s,
        sp_hex4(c).0.i == c.i + 4,
{
    assert forall|k: int| 0 <= k < 4 implies c.s[c.i + k] == hex4(v as int)[k] by {
        assert(c.s.subrange(c.i, c.i + 4)[k] == hex4(v as int)[k]);
    }
    lemma_hex_char_val((v / 0x1000 % 16) as u32);
    lemma_hex_char_val((v / 0x100 % 16) as u32);
    lemma_hex_char_val((v / 0x10 % 16) as u32);
    lemma_hex_char_val((v % 16) as u32);
    assert(c.s[c.i] == hex_char(v as int / 0x1000 % 16));
    assert(c.s[c.i + 1] == hex_char(v as int / 0x100 % 16));
    assert(c.s[c.i + 2] == hex_char(v as int / 0x10 % 16));
    assert(c.s[c.i + 3] == hex_char(v as int % 16));
    assert(v / 0x1000 % 16 * 0x1000 + v / 0x100 % 16 * 0x100 + v / 0x10 % 16 * 0x10 + v % 16
        == v) by (bit_vector)
        requires
            v < 0x10000,
    ;
}

/// The cons form of a string body's text.
#[verifier::rlimit(100)]
pub proof fn lemma_escs_cons(t: Seq<char>)
    requires
        t.len() > 0,
    ensures
        escs(t) == esc_char(t[0]) + escs(t.drop_first()),
    decreases t,
{
    if t.len() == 1 {
        assert(t.drop_last() =~= Seq::<char>::empty());
        assert(t.drop_first() =~= Seq::<char>::empty());
        assert(escs(t) =~= esc_char(t[0]) + escs(t.drop_first()));
    } else {
        lemma_escs_cons(t.drop_last());
        assert(t.drop_last().drop_first() =~= t.drop_first().drop_last());
        assert(t.drop_last()[0] == t[0]);
        assert(escs(t) == escs(t.drop_last()) + esc_char(t.last()));
        assert(t.drop_first().last() == t.last());
        assert(escs(t.drop_first()) == escs(t.drop_first().drop_last()) + esc_char(t.last()));
        assert(escs(t) =~= esc_char(t[0]) + escs(t.drop_first()));
    }
}

/// A `\uXXXX` escape written for a code point below 0x10000 reads back to
/// its character.
#[verifier::rlimit(100)]
proof fn lemma_rt_unicode_bmp(ch: char, cu: Cur)
    requires
        0x80 <= (ch as u32),
        (ch as u32) < 0x10000,
        0 <= cu.i,
        cu.i + 4 <= cu.s.len(),
        cu.s.subrange(cu.i, cu.i + 4) == hex4(ch as u32 as int),
    ensures
        sp_unicode_escape(cu).1 == Ok::<char, UnmarshalError>(ch),
        sp_unicode_escape(cu).0.s == cu.s,
        sp_unicode_escape(cu).0.i == cu.i + 4,
{
    broadcast use vstd::utf8::char_is_scalar, vstd::utf8::char_u32_cast;

    let n = ch as u32;
    lemma_rt_hex4(n, cu);
    assert(vstd::utf8::is_scalar(n));
    assert(!(0xD800 <= n <= 0xDFFF));
    assert((n as char) == ch);
}

/// A surrogate-pair escape written for a code point at or above 0x10000
/// reads back to its character.
#[verifier::rlimit(100)]
proof fn lemma_rt_unicode_sur(ch: char, cu: Cur)
    requires
        0x10000 <= (ch as u32),
        0 <= cu.i,
        cu.i + 10 <= cu.s.len(),
        cu.s.subrange(cu.i, cu.i + 10) == hex4(
            0xD800 + (ch as u32 - 0x10000) / 0x400,
        ) + seq!['\\', 'u'] + hex4(0xDC00 + (ch as u32 - 0x10000) % 0x400),
    ensures
        sp_unicode_escape(cu).1 == Ok::<char, UnmarshalError>(ch),
        sp_unicode_escape(cu).0.s == cu.s,
        sp_unicode_escape(cu).0.i == cu.i + 10,
{
    broadcast use vstd::utf8::char_is_scalar, vstd::utf8::char_u32_cast;

    let n = ch as u32;
    let m = n - 0x10000;
    let lead: u32 = (0xD800 + m / 0x400) as u32;
    let trail: u32 = (0xDC00 + m % 0x400) as u32;
    assert(vstd::utf8::is_scalar(n));
    assert(n <= 0x10FFFF);
    assert(m / 0x400 <= 0x3FF);
    let whole = hex4(lead as int) + seq!['\\', 'u'] + hex4(trail as int);
    assert forall|k: int| 0 <= k < 10 implies cu.s[cu.i + k] == whole[k] by {
        assert(cu.s.subrange(cu.i, cu.i + 10)[k] == whole[k]);
    }
    assert(cu.s.subrange(cu.i, cu.i + 4) =~= hex4(lead as int));
    lemma_rt_hex4(lead, cu);
    let c4 = sp_hex4(cu).0;
    assert(c4.i == cu.i + 4);
    assert(0xD800 <= lead <= 0xDBFF);
    assert(whole[4] == '\\') by {
        assert(whole[4] == (seq!['\\', 'u'] + hex4(trail as int))[0]);
    }
    assert(whole[5] == 'u') by {
        assert(whole[5] == (seq!['\\', 'u'] + hex4(trail as int))[1]);
    }
    assert(cu.s[cu.i + 4] == '\\' && cu.s[cu.i + 5] == 'u');
    assert(c4.peek() == Some('\\'));
    let c6 = c4.adv().adv();
    assert(c6.i == cu.i + 6);
    assert(c6.s.subrange(c6.i, c6.i + 4) =~= hex4(trail as int)) by {
        assert forall|k: int| 0 <= k < 4 implies cu.s[cu.i + 6 + k] == hex4(trail as int)[k] by {
            assert(whole[6 + k] == hex4(trail as int)[k]);
        }
    }
    lemma_rt_hex4(trail, c6);
    assert(0xDC00 <= trail <= 0xDFFF);
    assert(0x10000 + (lead - 0xD800) * 0x400 + (trail - 0xDC00) == n);
    assert((n as char) == ch);
}

/// Where the cursor stands after reading one escaped character.
pub open spec fn esc_step_cur(ch: char, c: Cur) -> Cur {
    let n = ch as u32;
    if esc_char(ch).len() == 1 {
        c.adv()
    } else if n < 0x80 {
        c.adv().adv()
    } else {
        sp_unicode_escape(c.adv().adv()).0
    }
}

/// Reading one escaped character steps the string body forward by exactly
/// the escape's text and appends exactly that character.
#[verifier::rlimit(100)]
proof fn lemma_rt_string_step(ch: char, c: Cur, acc: Seq<char>)
    requires
        0 <= c.i,
        c.i + esc_char(ch).len() < c.s.len(),
        c.s.subrange(c.i, c.i + esc_char(ch).len()) == esc_char(ch),
    ensures
        sp_string_body(c, acc) == sp_string_body(esc_step_cur(ch, c), acc.push(ch)),
        esc_step_cur(ch, c).s == c.s,
        esc_step_cur(ch, c).i == c.i + esc_char(ch).len(),
    decreases c.s.len() - c.i, 0int,
{
    broadcast use vstd::utf8::char_is_scalar, vstd::utf8::char_u32_cast;

    let e = esc_char(ch);
    let n = ch as u32;
    assert forall|k: int| 0 <= k < e.len() implies c.s[c.i + k] == e[k] by {
        assert(c.s.subrange(c.i, c.i + e.len())[k] == e[k]);
    }
    if e.len() == 1 {
        assert(e[0] == ch);
        assert(c.s[c.i] == e[0]) by {
            assert(c.s.subrange(c.i, c.i + e.len())[0] == e[0]);
        }
        assert(c.peek() == Some(ch));
        assert(ch != '"' && ch != '\\');
    } else if n < 0x80 {
        assert(e[0] == '\\');
        assert(c.peek() == Some('\\'));
        let cb = c.adv();
        assert(cb.peek() == Some(e[1]));
        assert(e[1] == '\\' || e[1] == '"' || e[1] == '/' || e[1] == 'b' || e[1] == 'f' || e[1]
            == 'n' || e[1] == 'r' || e[1] == 't');
        assert((ch as u32) == 0x08 ==> ch == '\u{8}');
        assert((ch as u32) == 0x0C ==> ch == '\u{c}');
    } else if n < 0x10000 {
        assert(e == seq!['\\', 'u'] + hex4(n as int));
        assert(e[0] == '\\' && e[1] == 'u');
        assert(c.peek() == Some('\\'));
        let cb = c.adv();
        assert(cb.peek() == Some('u'));
        let cu = cb.adv();
        assert(cu.s.subrange(cu.i, cu.i + 4) =~= hex4(n as int)) by {
            assert forall|k: int| 0 <= k < 4 implies c.s[c.i + 2 + k] == hex4(n as int)[k] by {
                assert(e[2 + k] == (seq!['\\', 'u'] + hex4(n as int))[2 + k]);
            }
        }
        lemma_rt_unicode_bmp(ch, cu);
    } else {
        let m = n - 0x10000;
        let whole = hex4((0xD800 + m / 0x400) as int) + seq!['\\', 'u'] + hex4(
            (0xDC00 + m % 0x400) as int,
        );
        assert(e == seq!['\\', 'u'] + whole) by {
            assert(e =~= seq!['\\', 'u'] + whole);
        }
        assert(e[0] == '\\' && e[1] == 'u');
        assert(c.peek() == Some('\\'));
        let cb = c.adv();
        assert(cb.peek() == Some('u'));
        let cu = cb.adv();
        assert(cu.s.subrange(cu.i, cu.i + 10) =~= whole) by {
            assert forall|k: int| 0 <= k < 10 implies c.s[c.i + 2 + k] == whole[k] by {
                assert(e[2 + k] == (seq!['\\', 'u'] + whole)[2 + k]);
            }
        }
        lemma_rt_unicode_sur(ch, cu);
    }
}

/// Reading a string body back: the escaped text of `t` followed by the
/// closing quote parses to `t` appended to whatever was read before.
#[verifier::rlimit(100)]
pub proof fn lemma_rt_string_body(t: Seq<char>, c: Cur, acc: Seq<char>)
    requires
        0 <= c.i,
        c.i + escs(t).len() + 1 <= c.s.len(),
        c.s.subrange(c.i, c.i + escs(t).len() + 1) == escs(t) + seq!['"'],
    ensures
        sp_string_body(c, acc).0.s == c.s,
        sp_string_body(c, acc).0.i == c.i + escs(t).len() + 1,
        sp_string_body(c, acc).1 == Ok::<Seq<char>, UnmarshalError>(acc + t),
    decreases t,
{
    if t.len() == 0 {
        assert(c.s[c.i] == '"') by {
            assert(c.s.subrange(c.i, c.i + 1)[0] == (escs(t) + seq!['"'])[0]);
        }
        assert(c.peek() == Some('"'));
        assert(acc + t =~= acc);
    } else {
        lemma_escs_cons(t);
        let ch = t[0];
        let e = esc_char(ch);
        let rest = escs(t.drop_first());
        assert(escs(t) == e + rest);
        assert(e + (rest + seq!['"']) =~= escs(t) + seq!['"']);
        lemma_text_split(c, e, rest + seq!['"']);
        lemma_rt_string_step(ch, c, acc);
        let c2 = esc_step_cur(ch, c);
        assert(c2.s.subrange(c2.i, c2.i + rest.len() + 1) == rest + seq!['"']);
        lemma_rt_string_body(t.drop_first(), c2, acc.push(ch));
        assert(acc.push(ch) + t.drop_first() =~= acc + t);
    }
}

/// A character that may follow a serialized value inside a larger text: a
/// separator or a closing bracket.
pub open spec fn after_ok(ch: char) -> bool {
    ch == ',' || ch == ']' || ch == '}'
}

/// Whether every number in the value prints with a decimal point, so that
/// its text parses back to the same variant: its digits are non-empty and
/// scaled by a negative power of ten. A whole-valued or zero decimal
/// prints as an integer does and parses back as one.
pub open spec fn floats_fractional(v: ValV) -> bool
    decreases v,
{
    match v {
        ValV::Object(ps) => ff_pairs(ps),
        ValV::List(es) => ff_list(es),
        ValV::Float(d) => d.digits.len() > 0 && d.exp < 0,
        _ => true,
    }
}

pub open spec fn ff_pairs(ps: Seq<(Seq<char>, ValV)>) -> bool
    decreases ps,
{
    ps.len() == 0 || (ff_pairs(ps.drop_last()) && floats_fractional(ps.last().1))
}

pub open spec fn ff_list(es: Seq<ValV>) -> bool
    decreases es,
{
    es.len() == 0 || (ff_list(es.drop_last()) && floats_fractional(es.last()))
}

/// Member-wise form of the object conditions.
pub proof fn lemma_pairs_at(ps: Seq<(Seq<char>, ValV)>)
    requires
        crate::element::wf_pairs(ps),
        ff_pairs(ps),
    ensures
        forall|k: int|
            0 <= k < ps.len() ==> (#[trigger] ps[k].1).wf() && floats_fractional(ps[k].1),
    decreases ps,
{
    if ps.len() > 0 {
        let dl = ps.drop_last();
        assert(crate::json_map::keys_unique(dl)) by {
            assert forall|j: int, q: int| 0 <= j < q < dl.len() implies dl[j].0 != dl[q].0 by {
                assert(ps[j].0 != ps[q].0);
            }
        }
        lemma_pairs_at(ps.drop_last());
        assert forall|k: int| 0 <= k < ps.len() implies (#[trigger] ps[k].1).wf()
            && floats_fractional(ps[k].1) by {
            if k < ps.len() - 1 {
                assert(ps.drop_last()[k] == ps[k]);
            }
        }
    }
}

/// Element-wise form of the list conditions.
pub proof fn lemma_list_at(es: Seq<ValV>)
    requires
        crate::element::wf_list(es),
        ff_list(es),
    ensures
        forall|k: int| 0 <= k < es.len() ==> (#[trigger] es[k]).wf() && floats_fractional(es[k]),
    decreases es,
{
    if es.len() > 0 {
        lemma_list_at(es.drop_last());
        assert forall|k: int| 0 <= k < es.len() implies (#[trigger] es[k]).wf()
            && floats_fractional(es[k]) by {
            if k < es.len() - 1 {
                assert(es.drop_last()[k] == es[k]);
            }
        }
    }
}

/// Reading the boolean literals back.
#[verifier::rlimit(100)]
pub proof fn lemma_rt_bool(b: bool, c: Cur)
    requires
        0 <= c.i,
        c.i + bool_text(b).len() <= c.s.len(),
        c.s.subrange(c.i, c.i + bool_text(b).len()) == bool_text(b),
    ensures
        sp_parse_bool(c).0.s == c.s,
        sp_parse_bool(c).0.i == c.i + bool_text(b).len(),
        sp_parse_bool(c).1 == Ok::<bool, UnmarshalError>(b),
{
    let t = bool_text(b);
    assert forall|k: int| 0 <= k < t.len() implies c.s[c.i + k] == t[k] by {
        assert(c.s.subrange(c.i, c.i + t.len())[k] == t[k]);
    }
    assert(c.peek() == Some(t[0]));
    assert(!is_ws(t[0]));
    assert(c.skip_ws() == c);
}

/// Reading the null literal back.
#[verifier::rlimit(100)]
pub proof fn lemma_rt_null(c: Cur)
    requires
        0 <= c.i,
        c.i + 4 <= c.s.len(),
        c.s.subrange(c.i, c.i + 4) == null_text(),
    ensures
        sp_parse_null(c).0.s == c.s,
        sp_parse_null(c).0.i == c.i + 4,
        sp_parse_null(c).1 == Ok::<(), UnmarshalError>(()),
{
    assert forall|k: int| 0 <= k < 4 implies c.s[c.i + k] == null_text()[k] by {
        assert(c.s.subrange(c.i, c.i + 4)[k] == null_text()[k]);
    }
    assert(c.peek() == Some('n'));
    assert(!is_ws('n'));
    assert(c.skip_ws() == c);
}

/// Reading a whole quoted string back.
pub proof fn lemma_rt_string(t: Seq<char>, c: Cur)
    requires
        0 <= c.i,
        c.i + string_text(t).len() <= c.s.len(),
        c.s.subrange(c.i, c.i + string_text(t).len()) == string_text(t),
    ensures
        sp_parse_string(c).0.s == c.s,
        sp_parse_string(c).0.i == c.i + string_text(t).len(),
        sp_parse_string(c).1 == Ok::<Seq<char>, UnmarshalError>(t),
{
    let w = string_text(t);
    assert(seq!['"'] + (escs(t) + seq!['"']) =~= w);
    lemma_text_split(c, seq!['"'], escs(t) + seq!['"']);
    assert(c.s.subrange(c.i, c.i + 1)[0] == '"');
    assert(c.peek() == Some('"'));
    assert(!is_ws('"'));
    assert(c.skip_ws() == c);
    lemma_rt_string_body(t, c.adv(), Seq::empty());
    assert(Seq::<char>::empty() + t =~= t);
}

/// Every serialized value begins with a character that neither closes a
/// container nor separates members, and is no whitespace; a number's text
/// begins with a minus sign or a digit.
#[verifier::rlimit(100)]
pub proof fn lemma_txt_first(v: ValV)
    requires
        v.wf(),
    ensures
        txt_value(v).len() > 0,
        !is_ws(txt_value(v)[0]),
        txt_value(v)[0] != ']' && txt_value(v)[0] != '}' && txt_value(v)[0] != ',',
        txt_value(v)[0] != ':',
{
    match v {
        ValV::Object(ps) => {
            assert(txt_value(v)[0] == '{');
        },
        ValV::List(es) => {
            assert(txt_value(v)[0] == '[');
        },
        ValV::Str(t) => {
            assert(txt_value(v)[0] == '"');
        },
        ValV::Int(i) => {
            let m: int = if i < 0 {
                -(i as int)
            } else {
                i as int
            };
            lemma_digits_of(m);
            lemma_digit_chars_cons(digits_of(m));
            if i < 0 {
                assert(txt_value(v)[0] == '-');
            } else {
                assert(txt_value(v)[0] == digit_char(digits_of(m)[0] as int));
                lemma_digit_char_val(digits_of(m)[0]);
            }
        },
        ValV::Float(d) => {
            let ds = d.digits;
            let n = ds.len() as int;
            if d.neg {
                assert(txt_value(v)[0] == '-');
            } else if n == 0 {
                assert(txt_value(v)[0] == '0');
                lemma_digit_char_val(0);
                assert(digit_char(0) == '0');
            } else if d.exp >= 0 {
                lemma_digit_chars_cons(ds);
                assert(txt_value(v)[0] == digit_char(ds[0] as int));
                lemma_digit_char_val(ds[0]);
            } else if n + d.exp > 0 {
                lemma_digit_chars_cons(ds.take(n + d.exp));
                assert(ds.take(n + d.exp)[0] == ds[0]);
                assert(txt_value(v)[0] == digit_char(ds[0] as int));
                lemma_digit_char_val(ds[0]);
            } else {
                assert(txt_value(v)[0] == '0');
                lemma_digit_char_val(0);
            }
        },
        ValV::Bool(b) => {
            assert(txt_value(v)[0] == bool_text(b)[0]);
        },
        ValV::Null => {
            assert(txt_value(v)[0] == 'n');
        },
    }
}

/// The cons form of a comma-space join.
pub proof fn lemma_join_cons(ts: Seq<Seq<char>>)
    requires
        ts.len() > 0,
    ensures
        join_comma(ts) == if ts.len() == 1 {
            ts[0]
        } else {
            ts[0] + seq![',', ' '] + join_comma(ts.drop_first())
        },
    decreases ts,
{
    if ts.len() == 1 {
    } else if ts.len() == 2 {
        assert(ts.drop_last() =~= seq![ts[0]]);
        assert(ts.drop_first() =~= seq![ts[1]]);
        assert(join_comma(ts.drop_last()) == ts[0]);
        assert(join_comma(ts.drop_first()) == ts[1]);
        assert(join_comma(ts) =~= ts[0] + seq![',', ' '] + join_comma(ts.drop_first()));
    } else {
        lemma_join_cons(ts.drop_last());
        assert(ts.drop_last().drop_first() =~= ts.drop_first().drop_last());
        assert(ts.drop_last()[0] == ts[0]);
        assert(ts.drop_first().len() >= 2);
        assert(join_comma(ts) == join_comma(ts.drop_last()) + seq![',', ' '] + ts.last());
        assert(join_comma(ts.drop_first()) == join_comma(ts.drop_first().drop_last()) + seq![
            ',',
            ' ',
        ] + ts.drop_first().last());
        assert(ts.drop_first().last() == ts.last());
        assert(join_comma(ts) =~= ts[0] + seq![',', ' '] + join_comma(ts.drop_first()));
    }
}

/// One whitespace character, then a non-whitespace one: skipping stops
/// after the first.
pub proof fn lemma_skip_one_ws(c: Cur)
    requires
        0 <= c.i,
        c.i + 1 < c.s.len(),
        is_ws(c.s[c.i]),
        !is_ws(c.s[c.i + 1]),
    ensures
        c.skip_ws() == c.adv().skip_ws(),
        c.adv().skip_ws() == c.adv(),
{
}

} // verus!
