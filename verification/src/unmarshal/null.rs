//! `null` and optional values. A unit target demands the literal `null`;
//! any other optional target takes `null` as absence and otherwise parses
//! the contained type.
use crate::unmarshal::unmarshal_iter::{sp_lit_char, Cur, UnmarshalIter};
use crate::unmarshal::unmarshalable::{UnmarshalError, Unmarshalable};
use vstd::prelude::*;

verus! {

/// Consuming the literal `null` after any whitespace: each character must
/// match in turn.
pub open spec fn sp_parse_null(c: Cur) -> (Cur, Result<(), UnmarshalError>) {
    let (c1, r1) = sp_lit_char(c.skip_ws(), 'n');
    match r1 {
        Err(e) => (c1, Err(e)),
        Ok(u0) => {
            let (c2, r2) = sp_lit_char(c1, 'u');
            match r2 {
                Err(e) => (c2, Err(e)),
                Ok(u1) => {
                    let (c3, r3) = sp_lit_char(c2, 'l');
                    match r3 {
                        Err(e) => (c3, Err(e)),
                        Ok(u2) => sp_lit_char(c3, 'l'),
                    }
                },
            }
        },
    }
}

impl Unmarshalable for () {
    open spec fn sp_parse(c: Cur) -> (Cur, Result<(), UnmarshalError>) {
        sp_parse_null(c)
    }

    #[verifier::rlimit(50)]
    fn unmarshal_json_with_state(u: &mut UnmarshalIter) -> (r: Result<(), UnmarshalError>) {
        proof {
            crate::unmarshal::unmarshal_iter::lemma_skip_ws(old(u)@);
            assert(Self::sp_parse(old(u)@) == sp_parse_null(old(u)@));
        }
        match u.next_non_whitespace() {
            Some('n') => (),
            got => {
                return Err(u.unexpected(got));
            },
        }
        match u.next() {
            Some('u') => (),
            got => {
                return Err(u.unexpected(got));
            },
        }
        match u.next() {
            Some('l') => (),
            got => {
                return Err(u.unexpected(got));
            },
        }
        match u.next() {
            Some('l') => Ok(()),
            got => Err(u.unexpected(got)),
        }
    }
}

impl<T: Unmarshalable> Unmarshalable for Option<T> {
    open spec fn sp_parse(c: Cur) -> (Cur, Result<Option<T::V>, UnmarshalError>) {
        let c1 = c.skip_ws();
        if c1.peek() == Some('n') {
            let (c2, r) = sp_parse_null(c);
            match r {
                Err(e) => (c2, Err(e)),
                Ok(u0) => (c2, Ok(None)),
            }
        } else {
            let (c2, r) = T::sp_parse(c1);
            match r {
                Err(e) => (c2, Err(e)),
                Ok(v) => (c2, Ok(Some(v))),
            }
        }
    }

    fn unmarshal_json_with_state(u: &mut UnmarshalIter) -> (r: Result<Option<T>, UnmarshalError>) {
        proof {
            crate::unmarshal::unmarshal_iter::lemma_skip_ws(old(u)@);
        }
        match u.peek_non_whitespace() {
            Some('n') => {
                u.next();
                match u.next() {
                    Some('u') => (),
                    got => {
                        return Err(u.unexpected(got));
                    },
                }
                match u.next() {
                    Some('l') => (),
                    got => {
                        return Err(u.unexpected(got));
                    },
                }
                match u.next() {
                    Some('l') => (),
                    got => {
                        return Err(u.unexpected(got));
                    },
                }
                Ok(None)
            },
            _ => {
                match T::unmarshal_json_with_state(u) {
                    Ok(v) => Ok(Some(v)),
                    Err(e) => Err(e),
                }
            },
        }
    }
}

} // verus!
