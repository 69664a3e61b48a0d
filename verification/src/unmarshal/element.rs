//! The untyped value parser: recursive descent dispatched on the first
//! non-whitespace character. `{` opens an object, `[` a list, `"` a
//! string, `n` the null literal, `t`/`f` a boolean, and `-` or a digit a
//! number, which becomes an integer unless a fraction or exponent follows;
//! anything else is an unexpected character at the current position.
use crate::chars::is_ws;
use crate::element::{view_list, view_pairs, Element, ValV};
use crate::json_map::{sp_insert, lemma_sp_insert_found, lemma_sp_insert_fresh};
use crate::unmarshal::bool::sp_parse_bool;
use crate::unmarshal::decimal::{dec_of_num, read_number, parts_to_decimal, sp_number};
use crate::unmarshal::i64::{wrap_digits, wrap_signed};
use crate::unmarshal::null::sp_parse_null;
use crate::unmarshal::string::{read_escaped, sp_parse_string, sp_string_body};
use crate::unmarshal::unmarshal_iter::{lemma_skip_ws, Cur, UnmarshalIter};
use crate::unmarshal::unmarshalable::{UnmarshalError, Unmarshalable};
use crate::chars::{str_eq, try_char_to_digit};
use vstd::prelude::*;

verus! {

broadcast use vstd::seq::group_seq_axioms, vstd::std_specs::vec::group_vec_axioms;

/// Whether a character opens a number.
pub open spec fn starts_number(ch: char) -> bool {
    ch == '-' || crate::chars::digit_val(ch, 10) is Some
}

/// The value a parsed number stands for: an integer unless a fraction or
/// exponent was present, a decimal otherwise.
pub open spec fn num_value(n: crate::unmarshal::decimal::NumV) -> ValV {
    if !n.has_frac && !n.has_exp {
        ValV::Int(wrap_signed(n.neg, n.int_digits))
    } else {
        ValV::Float(dec_of_num(n))
    }
}

/// One value, dispatched on the first non-whitespace character.
pub open spec fn sp_value(c: Cur) -> (Cur, Result<ValV, UnmarshalError>)
    decreases c.s.len() - c.i, 0int,
{
    match c.peek() {
        None => (c, Err(UnmarshalError::EndOfChars)),
        Some(ch) => {
            if is_ws(ch) {
                sp_value(c.adv())
            } else if ch == '{' {
                sp_obj_first(c.adv())
            } else if ch == '[' {
                sp_list_first(c.adv())
            } else if ch == '"' {
                let (c2, r) = sp_string_body(c.adv(), Seq::empty());
                match r {
                    Err(e) => (c2, Err(e)),
                    Ok(t) => (c2, Ok(ValV::Str(t))),
                }
            } else if ch == 'n' {
                let (c2, r) = sp_parse_null(c);
                match r {
                    Err(e) => (c2, Err(e)),
                    Ok(unit) => (c2, Ok(ValV::Null)),
                }
            } else if ch == 't' || ch == 'f' {
                let (c2, r) = sp_parse_bool(c);
                match r {
                    Err(e) => (c2, Err(e)),
                    Ok(b) => (c2, Ok(ValV::Bool(b))),
                }
            } else if starts_number(ch) {
                let (c2, r) = sp_number(c);
                match r {
                    Err(e) => (c2, Err(e)),
                    Ok(n) => (c2, Ok(num_value(n))),
                }
            } else {
                (c, Err(c.unexpected(Some(ch))))
            }
        },
    }
}

/// After `{`: whitespace, then either `}` or the members.
pub open spec fn sp_obj_first(c: Cur) -> (Cur, Result<ValV, UnmarshalError>)
    decreases c.s.len() - c.i, 3int,
{
    match c.peek() {
        None => (c, Err(UnmarshalError::EndOfChars)),
        Some(ch) => {
            if is_ws(ch) {
                sp_obj_first(c.adv())
            } else if ch == '}' {
                (c.adv(), Ok(ValV::Object(Seq::empty())))
            } else {
                sp_obj_members(c, Seq::empty())
            }
        },
    }
}

/// Members separated by `,` up to a closing `}`, with repeated keys
/// overwritten in place.
pub open spec fn sp_obj_members(c: Cur, acc: Seq<(Seq<char>, ValV)>) -> (
    Cur,
    Result<ValV, UnmarshalError>,
)
    decreases c.s.len() - c.i, 2int,
{
    let (c2, rp) = sp_obj_pair(c);
    match rp {
        Err(e) => (c2, Err(e)),
        Ok(kv) => {
            let acc2 = sp_insert(acc, kv.0, kv.1);
            let c3 = c2.skip_ws();
            match c3.peek() {
                None => (c3, Err(UnmarshalError::EndOfChars)),
                Some(ch) => {
                    if ch == '}' {
                        (c3.adv(), Ok(ValV::Object(acc2)))
                    } else if ch == ',' {
                        if c3.s == c.s && c.i <= c3.i {
                            sp_obj_members(c3.adv(), acc2)
                        } else {
                            (c3, Err(UnmarshalError::EndOfChars))
                        }
                    } else {
                        (c3.adv(), Err(c3.adv().unexpected(Some(ch))))
                    }
                },
            }
        },
    }
}

/// One member: a quoted-string key, `:`, then a value.
pub open spec fn sp_obj_pair(c: Cur) -> (Cur, Result<(Seq<char>, ValV), UnmarshalError>)
    decreases c.s.len() - c.i, 1int,
{
    let (c2, rk) = sp_parse_string(c);
    match rk {
        Err(e) => (c2, Err(e)),
        Ok(key) => {
            let c3 = c2.skip_ws();
            match c3.peek() {
                None => (c3, Err(UnmarshalError::EndOfChars)),
                Some(ch) => {
                    if ch == ':' {
                        if c3.s == c.s && c.i <= c3.i {
                            let (c4, rv) = sp_value(c3.adv());
                            match rv {
                                Err(e) => (c4, Err(e)),
                                Ok(v) => (c4, Ok((key, v))),
                            }
                        } else {
                            (c3, Err(UnmarshalError::EndOfChars))
                        }
                    } else {
                        (c3.adv(), Err(c3.adv().unexpected(Some(ch))))
                    }
                },
            }
        },
    }
}

/// After `[`: whitespace, then either `]` or the elements.
pub open spec fn sp_list_first(c: Cur) -> (Cur, Result<ValV, UnmarshalError>)
    decreases c.s.len() - c.i, 2int,
{
    match c.peek() {
        None => (c, Err(UnmarshalError::EndOfChars)),
        Some(ch) => {
            if is_ws(ch) {
                sp_list_first(c.adv())
            } else if ch == ']' {
                (c.adv(), Ok(ValV::List(Seq::empty())))
            } else {
                sp_list_elems(c, Seq::empty())
            }
        },
    }
}

/// Elements separated by `,` up to a closing `]`.
pub open spec fn sp_list_elems(c: Cur, acc: Seq<ValV>) -> (Cur, Result<ValV, UnmarshalError>)
    decreases c.s.len() - c.i, 1int,
{
    let (c2, rv) = sp_value(c);
    match rv {
        Err(e) => (c2, Err(e)),
        Ok(v) => {
            let acc2 = acc.push(v);
            let c3 = c2.skip_ws();
            match c3.peek() {
                None => (c3, Err(UnmarshalError::EndOfChars)),
                Some(ch) => {
                    if ch == ']' {
                        (c3.adv(), Ok(ValV::List(acc2)))
                    } else if ch == ',' {
                        if c3.s == c.s && c.i <= c3.i {
                            sp_list_elems(c3.adv(), acc2)
                        } else {
                            (c3, Err(UnmarshalError::EndOfChars))
                        }
                    } else {
                        (c3.adv(), Err(c3.adv().unexpected(Some(ch))))
                    }
                },
            }
        },
    }
}

/// Dispatch looks through whitespace: parsing from a cursor and from the
/// same cursor with its whitespace skipped agree.
pub proof fn lemma_sp_value_ws(c: Cur)
    ensures
        sp_value(c) == sp_value(c.skip_ws()),
    decreases c.s.len() - c.i,
{
    match c.peek() {
        Some(ch) => {
            if is_ws(ch) {
                lemma_sp_value_ws(c.adv());
            }
        },
        None => {},
    }
}

/// The object opener likewise looks through whitespace.
pub proof fn lemma_sp_obj_first_ws(c: Cur)
    ensures
        sp_obj_first(c) == sp_obj_first(c.skip_ws()),
    decreases c.s.len() - c.i,
{
    match c.peek() {
        Some(ch) => {
            if is_ws(ch) {
                lemma_sp_obj_first_ws(c.adv());
            }
        },
        None => {},
    }
}

/// The list opener likewise looks through whitespace.
pub proof fn lemma_sp_list_first_ws(c: Cur)
    ensures
        sp_list_first(c) == sp_list_first(c.skip_ws()),
    decreases c.s.len() - c.i,
{
    match c.peek() {
        Some(ch) => {
            if is_ws(ch) {
                lemma_sp_list_first_ws(c.adv());
            }
        },
        None => {},
    }
}

/// Inserts a value under a key into the pair list; an existing key keeps
/// its place and its earlier value is overwritten (last write wins).
#[verifier::loop_isolation(false)]
fn insert_pair(ps: &mut Vec<(String, Element)>, key: String, val: Element)
    ensures
        view_pairs(final(ps)@) == sp_insert(view_pairs(old(ps)@), key@, val@),
{
    let ghost old_pairs = ps@;
    let ghost old_view = view_pairs(ps@);
    let ghost gkey = key@;
    let ghost gval = val@;
    proof {
        crate::element::lemma_view_pairs(old_pairs);
    }
    let mut j: usize = 0;
    while j < ps.len()
        invariant
            0 <= j <= ps@.len(),
            forall|q: int| 0 <= q < j ==> #[trigger] ps@[q].0@ != gkey,
            ps@ == old_pairs,
        decreases ps@.len() - j,
    {
        if str_eq(ps[j].0.as_str(), key.as_str()) {
            ps.remove(j);
            ps.insert(j, (key, val));
            proof {
                old_pairs.remove_ensures(j as int);
                old_pairs.remove(j as int).insert_ensures(j as int, (key, val));
                assert(ps@ =~= old_pairs.update(j as int, (key, val)));
                crate::element::lemma_view_pairs(ps@);
                assert(old_view[j as int].0 == gkey);
                assert forall|q: int| 0 <= q < j implies #[trigger] old_view[q].0 != gkey by {
                    assert(old_view[q] == (old_pairs[q].0@, old_pairs[q].1@));
                }
                lemma_sp_insert_found(old_view, gkey, gval, j as int);
                assert(view_pairs(ps@) =~= old_view.update(j as int, (gkey, gval)));
            }
            return ;
        }
        j = j + 1;
    }
    ps.push((key, val));
    proof {
        assert(ps@ =~= old_pairs.push((key, val)));
        crate::element::lemma_view_pairs(ps@);
        assert forall|q: int| 0 <= q < old_view.len() implies #[trigger] old_view[q].0
            != gkey by {
            assert(old_view[q] == (old_pairs[q].0@, old_pairs[q].1@));
        }
        lemma_sp_insert_fresh(old_view, gkey, gval);
        assert(view_pairs(ps@) =~= old_view.push((gkey, gval)));
    }
}

/// The wrapping 64-bit accumulation of a digit run.
fn wrap_of_digits(ds: &Vec<u8>) -> (r: i64)
    ensures
        r == wrap_digits(ds@),
{
    let mut acc: i64 = 0;
    let mut k: usize = 0;
    proof {
        assert(ds@.take(0) =~= Seq::<u8>::empty());
    }
    while k < ds.len()
        invariant
            0 <= k <= ds@.len(),
            acc == wrap_digits(ds@.take(k as int)),
        decreases ds@.len() - k,
    {
        acc = acc.wrapping_mul(10).wrapping_add(ds[k] as i64);
        proof {
            assert(ds@.take(k + 1 as int).drop_last() =~= ds@.take(k as int));
            assert(ds@.take(k + 1 as int).last() == ds@[k as int]);
        }
        k = k + 1;
    }
    proof {
        assert(ds@.take(ds@.len() as int) =~= ds@);
    }
    acc
}

/// Parses an object after its `{` was consumed.
#[verifier::loop_isolation(false)]
#[verifier::rlimit(60)]
fn parse_object_body(u: &mut UnmarshalIter) -> (r: Result<Element, UnmarshalError>)
    requires
        old(u).wf(),
    ensures
        final(u).wf(),
        final(u)@.s == old(u)@.s,
        old(u)@.i <= final(u)@.i,
        final(u)@ == sp_obj_first(old(u)@).0,
        match r {
            Ok(e) => sp_obj_first(old(u)@).1 == Ok::<ValV, UnmarshalError>(e@),
            Err(e) => sp_obj_first(old(u)@).1 == Err::<ValV, UnmarshalError>(e),
        },
    decreases old(u)@.s.len() - old(u)@.i, 1int,
{
    proof {
        lemma_skip_ws(old(u)@);
        lemma_sp_obj_first_ws(old(u)@);
    }
    match u.peek_non_whitespace() {
        None => Err(UnmarshalError::EndOfChars),
        Some('}') => {
            u.next();
            let r: Vec<(String, Element)> = Vec::new();
            proof {
                assert(view_pairs(r@) =~= Seq::<(Seq<char>, ValV)>::empty());
            }
            Ok(Element::JsonObject(r))
        },
        Some(other) => {
            let ghost ce = u@;
            let mut ps: Vec<(String, Element)> = Vec::new();
            proof {
                assert(view_pairs(ps@) =~= Seq::<(Seq<char>, ValV)>::empty());
            }
            loop
                invariant
                    u.wf(),
                    u@.s == old(u)@.s,
                    old(u)@.i <= u@.i,
                    ce.i <= u@.i,
                    sp_obj_members(u@, view_pairs(ps@)) == sp_obj_members(
                        ce,
                        Seq::<(Seq<char>, ValV)>::empty(),
                    ),
                    sp_obj_first(old(u)@) == sp_obj_members(
                        ce,
                        Seq::<(Seq<char>, ValV)>::empty(),
                    ),
                decreases u@.s.len() - u@.i,
            {
                let ghost c_pair = u@;
                let key = match String::unmarshal_json_with_state(u) {
                    Ok(k) => k,
                    Err(e) => {
                        proof {
                            assert(sp_parse_string(c_pair).1 == Err::<Seq<char>, UnmarshalError>(
                                e,
                            ));
                            assert(sp_obj_pair(c_pair) == (
                                u@,
                                Err::<(Seq<char>, ValV), UnmarshalError>(e),
                            ));
                            assert(sp_obj_members(c_pair, view_pairs(ps@)) == (
                                u@,
                                Err::<ValV, UnmarshalError>(e),
                            ));
                        }
                        return Err(e);
                    },
                };
                let ghost c2 = u@;
                let ghost c3 = u@.skip_ws();
                proof {
                    lemma_skip_ws(u@);
                }
                match u.next_non_whitespace() {
                    Some(':') => {
                        proof {
                            assert(c3.peek() == Some(':'));
                            assert(c_pair.i <= c3.i && c3.s == c_pair.s);
                        }
                    },
                    got => {
                        proof {
                            assert(match got {
                                Some(ch) => sp_obj_pair(c_pair) == (
                                    c3.adv(),
                                    Err::<(Seq<char>, ValV), UnmarshalError>(
                                        c3.adv().unexpected(Some(ch)),
                                    ),
                                ),
                                None => sp_obj_pair(c_pair) == (
                                    c3,
                                    Err::<(Seq<char>, ValV), UnmarshalError>(
                                        UnmarshalError::EndOfChars,
                                    ),
                                ),
                            });
                        }
                        return Err(u.unexpected(got));
                    },
                }
                let ghost c4 = u@;
                let val = match parse_value(u) {
                    Ok(v) => v,
                    Err(e) => {
                        proof {
                            assert(sp_value(c4).1 == Err::<ValV, UnmarshalError>(e));
                            assert(sp_obj_pair(c_pair).1 == Err::<
                                (Seq<char>, ValV),
                                UnmarshalError,
                            >(e));
                        }
                        return Err(e);
                    },
                };
                proof {
                    assert(sp_obj_pair(c_pair).1 == Ok::<(Seq<char>, ValV), UnmarshalError>(
                        (key@, val@),
                    ));
                    assert(sp_obj_pair(c_pair).0 == u@);
                }
                insert_pair(&mut ps, key, val);
                proof {
                    lemma_skip_ws(u@);
                }
                match u.next_non_whitespace() {
                    Some(',') => (),
                    Some('}') => {
                        return Ok(Element::JsonObject(ps));
                    },
                    Some(sep) => {
                        return Err(u.unexpected_char(sep));
                    },
                    None => {
                        return Err(UnmarshalError::EndOfChars);
                    },
                }
            }
        },
    }
}

/// Parses a list after its `[` was consumed.
#[verifier::loop_isolation(false)]
#[verifier::rlimit(60)]
fn parse_list_body(u: &mut UnmarshalIter) -> (r: Result<Element, UnmarshalError>)
    requires
        old(u).wf(),
    ensures
        final(u).wf(),
        final(u)@.s == old(u)@.s,
        old(u)@.i <= final(u)@.i,
        final(u)@ == sp_list_first(old(u)@).0,
        match r {
            Ok(e) => sp_list_first(old(u)@).1 == Ok::<ValV, UnmarshalError>(e@),
            Err(e) => sp_list_first(old(u)@).1 == Err::<ValV, UnmarshalError>(e),
        },
    decreases old(u)@.s.len() - old(u)@.i, 1int,
{
    proof {
        lemma_skip_ws(old(u)@);
        lemma_sp_list_first_ws(old(u)@);
    }
    match u.peek_non_whitespace() {
        None => Err(UnmarshalError::EndOfChars),
        Some(']') => {
            u.next();
            let r: Vec<Element> = Vec::new();
            proof {
                assert(view_list(r@) =~= Seq::<ValV>::empty());
            }
            Ok(Element::JsonList(r))
        },
        Some(other) => {
            let ghost ce = u@;
            let mut es: Vec<Element> = Vec::new();
            proof {
                assert(view_list(es@) =~= Seq::<ValV>::empty());
            }
            loop
                invariant
                    u.wf(),
                    u@.s == old(u)@.s,
                    old(u)@.i <= u@.i,
                    ce.i <= u@.i,
                    sp_list_elems(u@, view_list(es@)) == sp_list_elems(ce, Seq::<ValV>::empty()),
                    sp_list_first(old(u)@) == sp_list_elems(ce, Seq::<ValV>::empty()),
                decreases u@.s.len() - u@.i,
            {
                let ghost lv = view_list(es@);
                let val = match parse_value(u) {
                    Ok(v) => v,
                    Err(e) => {
                        return Err(e);
                    },
                };
                let ghost es_old = es@;
                es.push(val);
                proof {
                    assert(es@.drop_last() =~= es_old);
                    assert(view_list(es@) =~= lv.push(val@));
                }
                proof {
                    lemma_skip_ws(u@);
                }
                match u.next_non_whitespace() {
                    Some(',') => (),
                    Some(']') => {
                        return Ok(Element::JsonList(es));
                    },
                    Some(sep) => {
                        return Err(u.unexpected_char(sep));
                    },
                    None => {
                        return Err(UnmarshalError::EndOfChars);
                    },
                }
            }
        },
    }
}

/// Parses a number into an integer or a decimal element.
#[verifier::rlimit(30)]
fn parse_number_value(u: &mut UnmarshalIter) -> (r: Result<Element, UnmarshalError>)
    requires
        old(u).wf(),
    ensures
        final(u).wf(),
        final(u)@.s == old(u)@.s,
        old(u)@.i <= final(u)@.i,
        r is Ok ==> old(u)@.i < final(u)@.i,
        final(u)@ == sp_number(old(u)@).0,
        match r {
            Ok(e) => {
                &&& sp_number(old(u)@).1 matches Ok(n)
                &&& sp_number(old(u)@).1 matches Ok(n) ==> e@ == num_value(n)
            },
            Err(e) => sp_number(old(u)@).1 == Err::<
                crate::unmarshal::decimal::NumV,
                UnmarshalError,
            >(e),
        },
{
    let parts = match read_number(u) {
        Ok(p) => p,
        Err(e) => {
            return Err(e);
        },
    };
    if !parts.has_frac && !parts.has_exp {
        let m = wrap_of_digits(&parts.int_digits);
        if parts.neg {
            Ok(Element::JsonInt(m.wrapping_mul(-1)))
        } else {
            Ok(Element::JsonInt(m))
        }
    } else {
        Ok(Element::JsonFloat(parts_to_decimal(parts)))
    }
}

/// Parses one value, consuming exactly its characters.
#[verifier::loop_isolation(false)]
#[verifier::rlimit(60)]
fn parse_value(u: &mut UnmarshalIter) -> (r: Result<Element, UnmarshalError>)
    requires
        old(u).wf(),
    ensures
        final(u).wf(),
        final(u)@.s == old(u)@.s,
        old(u)@.i <= final(u)@.i,
        r is Ok ==> old(u)@.i < final(u)@.i,
        final(u)@ == sp_value(old(u)@).0,
        match r {
            Ok(e) => sp_value(old(u)@).1 == Ok::<ValV, UnmarshalError>(e@),
            Err(e) => sp_value(old(u)@).1 == Err::<ValV, UnmarshalError>(e),
        },
    decreases old(u)@.s.len() - old(u)@.i, 0int,
{
    proof {
        lemma_skip_ws(old(u)@);
        lemma_sp_value_ws(old(u)@);
    }
    let ghost c1 = old(u)@.skip_ws();
    let peeked = u.peek_non_whitespace();
    match peeked {
        None => Err(UnmarshalError::EndOfChars),
        Some(ch) => {
            if ch == '{' {
                u.next();
                parse_object_body(u)
            } else if ch == '[' {
                u.next();
                parse_list_body(u)
            } else if ch == '"' {
                u.next();
                match read_escaped(u) {
                    Ok(s) => Ok(Element::JsonString(s)),
                    Err(e) => Err(e),
                }
            } else if ch == 'n' {
                match <() as Unmarshalable>::unmarshal_json_with_state(u) {
                    Ok(unit) => Ok(Element::JsonNull),
                    Err(e) => Err(e),
                }
            } else if ch == 't' || ch == 'f' {
                match bool::unmarshal_json_with_state(u) {
                    Ok(b) => Ok(Element::JsonBool(b)),
                    Err(e) => Err(e),
                }
            } else {
                let is_digit = match try_char_to_digit(Some(ch), 10) {
                    Some(d) => true,
                    None => false,
                };
                if ch == '-' || is_digit {
                    parse_number_value(u)
                } else {
                    Err(u.unexpected(Some(ch)))
                }
            }
        },
    }
}

impl Unmarshalable for Element {
    open spec fn sp_parse(c: Cur) -> (Cur, Result<ValV, UnmarshalError>) {
        sp_value(c)
    }

    fn unmarshal_json_with_state(u: &mut UnmarshalIter) -> (r: Result<Element, UnmarshalError>) {
        parse_value(u)
    }
}

} // verus!
