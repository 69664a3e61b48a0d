//! String-keyed mappings parse from `{`: either an immediate `}` for the
//! empty mapping, or quoted-string keys each followed by `:` and a value,
//! separated by `,` and terminated by `}`. A repeated key overwrites the
//! earlier value (last write wins). A comma directly after `{` or directly
//! before `}` is an error.
use crate::json_map::{sp_insert, JsonMap};
use crate::unmarshal::string::sp_parse_string;
use crate::unmarshal::unmarshal_iter::{Cur, UnmarshalIter};
use crate::unmarshal::unmarshalable::{UnmarshalError, Unmarshalable};
use vstd::prelude::*;

verus! {

broadcast use vstd::seq::group_seq_axioms, vstd::std_specs::vec::group_vec_axioms;

/// One member: a quoted-string key, `:`, then a value of the target type.
pub open spec fn sp_pair<T: Unmarshalable>(c: Cur) -> (
    Cur,
    Result<(Seq<char>, T::V), UnmarshalError>,
) {
    let (c2, rk) = sp_parse_string(c);
    match rk {
        Err(e) => (c2, Err(e)),
        Ok(key) => {
            let c3 = c2.skip_ws();
            match c3.peek() {
                None => (c3, Err(UnmarshalError::EndOfChars)),
                Some(ch) => {
                    if ch == ':' {
                        let (c4, rv) = T::sp_parse(c3.adv());
                        match rv {
                            Err(e) => (c4, Err(e)),
                            Ok(v) => (c4, Ok((key, v))),
                        }
                    } else {
                        (c3.adv(), Err(c3.adv().unexpected(Some(ch))))
                    }
                },
            }
        },
    }
}

/// Members separated by `,` up to a closing `}`, starting where a member
/// is expected; `acc` holds the members already parsed, with repeated keys
/// overwritten in place.
pub open spec fn sp_members<T: Unmarshalable>(c: Cur, acc: Seq<(Seq<char>, T::V)>) -> (
    Cur,
    Result<Seq<(Seq<char>, T::V)>, UnmarshalError>,
)
    decreases c.s.len() - c.i,
{
    let (c2, rp) = sp_pair::<T>(c);
    match rp {
        Err(e) => (c2, Err(e)),
        Ok(kv) => {
            let acc2 = sp_insert(acc, kv.0, kv.1);
            let c3 = c2.skip_ws();
            match c3.peek() {
                None => (c3, Err(UnmarshalError::EndOfChars)),
                Some(ch) => {
                    if ch == '}' {
                        (c3.adv(), Ok(acc2))
                    } else if ch == ',' {
                        if c3.s == c.s && c.i <= c3.i {
                            sp_members::<T>(c3.adv(), acc2)
                        } else {
                            (c3, Err(UnmarshalError::EndOfChars))
                        }
                    } else {
                        (c3.adv(), Err(c3.adv().unexpected(Some(ch))))
                    }
                },
            }
        },
    }
}

/// A mapping: any whitespace, `{`, then either `}` or the members.
pub open spec fn sp_parse_object<T: Unmarshalable>(c: Cur) -> (
    Cur,
    Result<Seq<(Seq<char>, T::V)>, UnmarshalError>,
) {
    let c1 = c.skip_ws();
    match c1.peek() {
        None => (c1, Err(UnmarshalError::EndOfChars)),
        Some(ch) => {
            if ch == '{' {
                let c2 = c1.adv().skip_ws();
                if c2.peek() == Some('}') {
                    (c2.adv(), Ok(Seq::empty()))
                } else {
                    sp_members::<T>(c2, Seq::empty())
                }
            } else {
                (c1.adv(), Err(c1.adv().unexpected(Some(ch))))
            }
        },
    }
}

/// Unmarshals one key-value pair separated by a `:`.
pub(crate) fn unmarshal_pair<T: Unmarshalable>(u: &mut UnmarshalIter) -> (r: Result<
    (String, T),
    UnmarshalError,
>)
    requires
        old(u).wf(),
    ensures
        final(u).wf(),
        final(u)@.s == old(u)@.s,
        old(u)@.i <= final(u)@.i,
        r is Ok ==> old(u)@.i < final(u)@.i,
        final(u)@ == sp_pair::<T>(old(u)@).0,
        match r {
            Ok(kv) => sp_pair::<T>(old(u)@).1 == Ok::<(Seq<char>, T::V), UnmarshalError>(
                (kv.0@, kv.1.deep_view()),
            ),
            Err(e) => sp_pair::<T>(old(u)@).1 == Err::<(Seq<char>, T::V), UnmarshalError>(e),
        },
{
    let key = String::unmarshal_json_with_state(u)?;
    proof {
        crate::unmarshal::unmarshal_iter::lemma_skip_ws(u@);
    }
    match u.next_non_whitespace() {
        Some(':') => {
            let v = T::unmarshal_json_with_state(u)?;
            Ok((key, v))
        },
        got => Err(u.unexpected(got)),
    }
}

impl<T: Unmarshalable> Unmarshalable for JsonMap<T> {
    open spec fn sp_parse(c: Cur) -> (Cur, Result<Seq<(Seq<char>, T::V)>, UnmarshalError>) {
        sp_parse_object::<T>(c)
    }

    #[verifier::loop_isolation(false)]
    fn unmarshal_json_with_state(u: &mut UnmarshalIter) -> (r: Result<JsonMap<T>, UnmarshalError>) {
        proof {
            crate::unmarshal::unmarshal_iter::lemma_skip_ws(old(u)@);
        }
        match u.next_non_whitespace() {
            Some('{') => (),
            got => {
                return Err(u.unexpected(got));
            },
        }
        proof {
            crate::unmarshal::unmarshal_iter::lemma_skip_ws(u@);
        }
        match u.peek_non_whitespace() {
            Some('}') => {
                u.next();
                return Ok(JsonMap::new());
            },
            _ => {},
        }
        let ghost ce = u@;
        let mut object: JsonMap<T> = JsonMap::new();
        loop
            invariant
                u.wf(),
                u@.s == old(u)@.s,
                old(u)@.i < u@.i,
                ce.i <= u@.i,
                sp_members::<T>(u@, object@) == sp_members::<T>(
                    ce,
                    Seq::<(Seq<char>, T::V)>::empty(),
                ),
            decreases u@.s.len() - u@.i,
        {
            match unmarshal_pair::<T>(u) {
                Err(e) => {
                    return Err(e);
                },
                Ok(kv) => {
                    object.insert(kv.0, kv.1);
                },
            }
            proof {
                crate::unmarshal::unmarshal_iter::lemma_skip_ws(u@);
            }
            match u.next_non_whitespace() {
                Some(',') => (),
                Some('}') => {
                    return Ok(object);
                },
                Some(ch) => {
                    return Err(u.unexpected_char(ch));
                },
                None => {
                    return Err(UnmarshalError::EndOfChars);
                },
            }
        }
    }
}

} // verus!
