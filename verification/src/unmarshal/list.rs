//! Sequences parse from `[`: either an immediate `]` for the empty
//! sequence, or elements separated by `,` and terminated by `]`. A comma
//! directly after `[` or directly before `]` is an error, as is any other
//! separator or running out of input.
use crate::unmarshal::unmarshal_iter::{Cur, UnmarshalIter};
use crate::unmarshal::unmarshalable::{UnmarshalError, Unmarshalable};
use vstd::prelude::*;

verus! {

broadcast use vstd::seq::group_seq_axioms, vstd::std_specs::vec::group_vec_axioms;

/// Elements separated by `,` up to a closing `]`, starting where an
/// element is expected; `acc` holds the elements already parsed.
pub open spec fn sp_elems<T: Unmarshalable>(c: Cur, acc: Seq<T::V>) -> (
    Cur,
    Result<Seq<T::V>, UnmarshalError>,
)
    decreases c.s.len() - c.i,
{
    let (c2, r) = T::sp_parse(c);
    match r {
        Err(e) => (c2, Err(e)),
        Ok(v) => {
            let acc2 = acc.push(v);
            let c3 = c2.skip_ws();
            match c3.peek() {
                None => (c3, Err(UnmarshalError::EndOfChars)),
                Some(ch) => {
                    if ch == ']' {
                        (c3.adv(), Ok(acc2))
                    } else if ch == ',' {
                        if c3.s == c.s && c.i <= c3.i {
                            sp_elems::<T>(c3.adv(), acc2)
                        } else {
                            (c3, Err(UnmarshalError::EndOfChars))
                        }
                    } else {
                        (c3.adv(), Err(c3.adv().unexpected(Some(ch))))
                    }
                },
            }
        },
    }
}

/// A sequence: any whitespace, `[`, then either `]` or the elements.
pub open spec fn sp_parse_list<T: Unmarshalable>(c: Cur) -> (
    Cur,
    Result<Seq<T::V>, UnmarshalError>,
) {
    let c1 = c.skip_ws();
    match c1.peek() {
        None => (c1, Err(UnmarshalError::EndOfChars)),
        Some(ch) => {
            if ch == '[' {
                let c2 = c1.adv().skip_ws();
                if c2.peek() == Some(']') {
                    (c2.adv(), Ok(Seq::empty()))
                } else {
                    sp_elems::<T>(c2, Seq::empty())
                }
            } else {
                (c1.adv(), Err(c1.adv().unexpected(Some(ch))))
            }
        },
    }
}

impl<T: Unmarshalable> Unmarshalable for Vec<T> {
    open spec fn sp_parse(c: Cur) -> (Cur, Result<Seq<T::V>, UnmarshalError>) {
        sp_parse_list::<T>(c)
    }

    #[verifier::loop_isolation(false)]
    fn unmarshal_json_with_state(u: &mut UnmarshalIter) -> (r: Result<Vec<T>, UnmarshalError>) {
        proof {
            crate::unmarshal::unmarshal_iter::lemma_skip_ws(old(u)@);
        }
        match u.next_non_whitespace() {
            Some('[') => (),
            got => {
                return Err(u.unexpected(got));
            },
        }
        proof {
            crate::unmarshal::unmarshal_iter::lemma_skip_ws(u@);
        }
        match u.peek_non_whitespace() {
            Some(']') => {
                u.next();
                let r: Vec<T> = Vec::new();
                proof {
                    assert(r.deep_view() =~= Seq::<T::V>::empty());
                }
                return Ok(r);
            },
            _ => {},
        }
        let ghost ce = u@;
        let mut elements: Vec<T> = Vec::new();
        proof {
            assert(elements.deep_view() =~= Seq::<T::V>::empty());
        }
        loop
            invariant
                u.wf(),
                u@.s == old(u)@.s,
                old(u)@.i < u@.i,
                ce.i <= u@.i,
                sp_elems::<T>(u@, elements.deep_view()) == sp_elems::<T>(ce, Seq::<T::V>::empty()),
            decreases u@.s.len() - u@.i,
        {
            let ghost c_elem = u@;
            let ghost dv = elements.deep_view();
            match T::unmarshal_json_with_state(u) {
                Err(e) => {
                    return Err(e);
                },
                Ok(val) => {
                    elements.push(val);
                    proof {
                        assert(elements.deep_view() =~= dv.push(val.deep_view()));
                    }
                },
            }
            proof {
                crate::unmarshal::unmarshal_iter::lemma_skip_ws(u@);
            }
            match u.next_non_whitespace() {
                Some(',') => (),
                Some(']') => {
                    return Ok(elements);
                },
                Some(ch) => {
                    return Err(u.unexpected_char(ch));
                },
                None => {
                    return Err(UnmarshalError::EndOfChars);
                },
            }
        }
    }
}

} // verus!
