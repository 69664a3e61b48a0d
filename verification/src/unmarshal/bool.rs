//! Booleans must match `true` or `false` exactly, character by character;
//! any deviation is reported at the deviating position.
use crate::unmarshal::unmarshal_iter::{sp_lit_char, Cur, UnmarshalIter};
use crate::unmarshal::unmarshalable::{UnmarshalError, Unmarshalable};
use vstd::prelude::*;

verus! {

/// Consuming `true` or `false` after any whitespace, dispatching on the
/// first character.
pub open spec fn sp_parse_bool(c: Cur) -> (Cur, Result<bool, UnmarshalError>) {
    let c1 = c.skip_ws();
    match c1.peek() {
        Some('t') => {
            let (c2, r2) = sp_lit_char(c1.adv(), 'r');
            match r2 {
                Err(e) => (c2, Err(e)),
                Ok(u0) => {
                    let (c3, r3) = sp_lit_char(c2, 'u');
                    match r3 {
                        Err(e) => (c3, Err(e)),
                        Ok(u1) => {
                            let (c4, r4) = sp_lit_char(c3, 'e');
                            match r4 {
                                Err(e) => (c4, Err(e)),
                                Ok(u2) => (c4, Ok(true)),
                            }
                        },
                    }
                },
            }
        },
        Some('f') => {
            let (c2, r2) = sp_lit_char(c1.adv(), 'a');
            match r2 {
                Err(e) => (c2, Err(e)),
                Ok(u0) => {
                    let (c3, r3) = sp_lit_char(c2, 'l');
                    match r3 {
                        Err(e) => (c3, Err(e)),
                        Ok(u1) => {
                            let (c4, r4) = sp_lit_char(c3, 's');
                            match r4 {
                                Err(e) => (c4, Err(e)),
                                Ok(u2) => {
                                    let (c5, r5) = sp_lit_char(c4, 'e');
                                    match r5 {
                                        Err(e) => (c5, Err(e)),
                                        Ok(u3) => (c5, Ok(false)),
                                    }
                                },
                            }
                        },
                    }
                },
            }
        },
        Some(ch) => (c1.adv(), Err(c1.adv().unexpected(Some(ch)))),
        None => (c1, Err(UnmarshalError::EndOfChars)),
    }
}

impl Unmarshalable for bool {
    open spec fn sp_parse(c: Cur) -> (Cur, Result<bool, UnmarshalError>) {
        sp_parse_bool(c)
    }

    fn unmarshal_json_with_state(u: &mut UnmarshalIter) -> (r: Result<bool, UnmarshalError>) {
        proof {
            crate::unmarshal::unmarshal_iter::lemma_skip_ws(old(u)@);
        }
        match u.next_non_whitespace() {
            Some('t') => {
                match u.next() {
                    Some('r') => (),
                    got => {
                        return Err(u.unexpected(got));
                    },
                }
                match u.next() {
                    Some('u') => (),
                    got => {
                        return Err(u.unexpected(got));
                    },
                }
                match u.next() {
                    Some('e') => Ok(true),
                    got => Err(u.unexpected(got)),
                }
            },
            Some('f') => {
                match u.next() {
                    Some('a') => (),
                    got => {
                        return Err(u.unexpected(got));
                    },
                }
                match u.next() {
                    Some('l') => (),
                    got => {
                        return Err(u.unexpected(got));
                    },
                }
                match u.next() {
                    Some('s') => (),
                    got => {
                        return Err(u.unexpected(got));
                    },
                }
                match u.next() {
                    Some('e') => Ok(false),
                    got => Err(u.unexpected(got)),
                }
            },
            got => Err(u.unexpected(got)),
        }
    }
}

} // verus!
