//! Strings parse from a double quote to the next unescaped double quote.
//! After a backslash only `\ " / b f n r t u` may follow; `u` begins a
//! four-hex-digit escape, and a lead surrogate demands a second `\uXXXX`
//! escape holding a trail surrogate, the pair combining to one code point.
//! A malformed escape target or a lone surrogate is reported as an
//! unexpected character; input ending inside the string is an end-of-input
//! error.
use crate::marshal::marshalable::push_char;
use crate::unmarshal::unmarshal_iter::{sp_next_digit, Cur, UnmarshalIter};
use crate::unmarshal::unmarshalable::{UnmarshalError, Unmarshalable};
use vstd::prelude::*;

verus! {

/// Four hexadecimal digits, combined most significant first.
pub open spec fn sp_hex4(c: Cur) -> (Cur, Result<u32, UnmarshalError>) {
    let (c1, r1) = sp_next_digit(c, 16);
    match r1 {
        Err(e) => (c1, Err(e)),
        Ok(h0) => {
            let (c2, r2) = sp_next_digit(c1, 16);
            match r2 {
                Err(e) => (c2, Err(e)),
                Ok(h1) => {
                    let (c3, r3) = sp_next_digit(c2, 16);
                    match r3 {
                        Err(e) => (c3, Err(e)),
                        Ok(h2) => {
                            let (c4, r4) = sp_next_digit(c3, 16);
                            match r4 {
                                Err(e) => (c4, Err(e)),
                                Ok(h3) => (
                                    c4,
                                    Ok(
                                        (h0 * 0x1000 + h1 * 0x100 + h2 * 0x10
                                            + h3) as u32,
                                    ),
                                ),
                            }
                        },
                    }
                },
            }
        },
    }
}

/// A `\uXXXX` escape, after its `\u` was consumed: four hex digits give a
/// code point; a lead surrogate demands `\u` and four more digits holding
/// a trail surrogate, and the pair combines to one code point. A code
/// point outside the scalar range is reported as an unexpected `u` at the
/// position of the escape's last digit.
pub open spec fn sp_unicode_escape(c: Cur) -> (Cur, Result<char, UnmarshalError>) {
    let (c4, r) = sp_hex4(c);
    match r {
        Err(e) => (c4, Err(e)),
        Ok(lead) => {
            if lead < 0xD800 || lead > 0xDFFF {
                (c4, Ok(lead as char))
            } else if lead > 0xDBFF {
                // a lone trail surrogate is no scalar value
                (c4, Err(c4.unexpected(Some('u'))))
            } else {
                let (c5, r5) = crate::unmarshal::unmarshal_iter::sp_lit_char(c4, '\\');
                match r5 {
                    Err(e) => (c5, Err(e)),
                    Ok(u0) => {
                        let (c6, r6) = crate::unmarshal::unmarshal_iter::sp_lit_char(c5, 'u');
                        match r6 {
                            Err(e) => (c6, Err(e)),
                            Ok(u1) => {
                                let (c8, r8) = sp_hex4(c6);
                                match r8 {
                                    Err(e) => (c8, Err(e)),
                                    Ok(trail) => {
                                        if 0xDC00 <= trail && trail <= 0xDFFF {
                                            (
                                                c8,
                                                Ok(
                                                    (0x10000 + (lead - 0xD800) * 0x400 + (trail
                                                        - 0xDC00)) as char,
                                                ),
                                            )
                                        } else {
                                            (c8, Err(c8.unexpected(Some('u'))))
                                        }
                                    },
                                }
                            },
                        }
                    },
                }
            }
        },
    }
}

/// The body of a string, after the opening quote: characters verbatim up
/// to the closing quote, with backslash escapes decoded.
pub open spec fn sp_string_body(c: Cur, acc: Seq<char>) -> (Cur, Result<Seq<char>, UnmarshalError>)
    decreases c.s.len() - c.i,
{
    match c.peek() {
        None => (c, Err(UnmarshalError::EndOfChars)),
        Some(ch) => {
            if ch == '"' {
                (c.adv(), Ok(acc))
            } else if ch == '\\' {
                let cb = c.adv();
                match cb.peek() {
                    None => (cb, Err(UnmarshalError::EndOfChars)),
                    Some(e) => {
                        if e == '\\' || e == '"' || e == '/' {
                            sp_string_body(cb.adv(), acc.push(e))
                        } else if e == 'b' {
                            sp_string_body(cb.adv(), acc.push('\u{8}'))
                        } else if e == 'f' {
                            sp_string_body(cb.adv(), acc.push('\u{c}'))
                        } else if e == 'n' {
                            sp_string_body(cb.adv(), acc.push('\n'))
                        } else if e == 'r' {
                            sp_string_body(cb.adv(), acc.push('\r'))
                        } else if e == 't' {
                            sp_string_body(cb.adv(), acc.push('\t'))
                        } else if e == 'u' {
                            let (c2, r) = sp_unicode_escape(cb.adv());
                            match r {
                                Err(e2) => (c2, Err(e2)),
                                Ok(decoded) => {
                                    if c2.s == c.s && c.i < c2.i && c2.i <= c2.s.len() {
                                        sp_string_body(c2, acc.push(decoded))
                                    } else {
                                        (c2, Err(UnmarshalError::EndOfChars))
                                    }
                                },
                            }
                        } else {
                            (cb.adv(), Err(cb.adv().unexpected(Some(e))))
                        }
                    },
                }
            } else {
                sp_string_body(c.adv(), acc.push(ch))
            }
        },
    }
}

/// A string: any whitespace, a double quote, then the body.
pub open spec fn sp_parse_string(c: Cur) -> (Cur, Result<Seq<char>, UnmarshalError>) {
    let c1 = c.skip_ws();
    match c1.peek() {
        Some(ch) => {
            if ch == '"' {
                sp_string_body(c1.adv(), Seq::empty())
            } else {
                (c1.adv(), Err(c1.adv().unexpected(Some(ch))))
            }
        },
        None => (c1, Err(UnmarshalError::EndOfChars)),
    }
}

/// Decodes a `\uXXXX` escape, after its `\u` was consumed.
pub(crate) fn try_read_unicode_escape(u: &mut UnmarshalIter) -> (r: Result<char, UnmarshalError>)
    requires
        old(u).wf(),
    ensures
        final(u).wf(),
        final(u)@.s == old(u)@.s,
        old(u)@.i <= final(u)@.i,
        final(u)@ == sp_unicode_escape(old(u)@).0,
        r == sp_unicode_escape(old(u)@).1,
{
    let h0 = u.try_next_digit(16)?;
    let h1 = u.try_next_digit(16)?;
    let h2 = u.try_next_digit(16)?;
    let h3 = u.try_next_digit(16)?;
    let lead: u32 = h0 * 0x1000 + h1 * 0x100 + h2 * 0x10 + h3;
    if lead < 0xD800 || lead > 0xDFFF {
        match crate::chars::char_from_u32(lead) {
            Some(ch) => Ok(ch),
            None => {
                proof {
                    assert(false);
                }
                Err(UnmarshalError::EndOfChars)
            },
        }
    } else if lead > 0xDBFF {
        Err(u.unexpected_char('u'))
    } else {
        match u.next() {
            Some('\\') => (),
            got => {
                return Err(u.unexpected(got));
            },
        }
        match u.next() {
            Some('u') => (),
            got => {
                return Err(u.unexpected(got));
            },
        }
        let h4 = u.try_next_digit(16)?;
        let h5 = u.try_next_digit(16)?;
        let h6 = u.try_next_digit(16)?;
        let h7 = u.try_next_digit(16)?;
        let trail: u32 = h4 * 0x1000 + h5 * 0x100 + h6 * 0x10 + h7;
        if 0xDC00 <= trail && trail <= 0xDFFF {
            let n: u32 = 0x10000 + (lead - 0xD800) * 0x400 + (trail - 0xDC00);
            match crate::chars::char_from_u32(n) {
                Some(ch) => Ok(ch),
                None => {
                    proof {
                        assert(false);
                    }
                    Err(UnmarshalError::EndOfChars)
                },
            }
        } else {
            Err(u.unexpected_char('u'))
        }
    }
}

/// Reads a string body up to and including the closing quote, decoding
/// escapes; the opening quote must already be consumed.
#[verifier::loop_isolation(false)]
pub(crate) fn read_escaped(u: &mut UnmarshalIter) -> (r: Result<String, UnmarshalError>)
    requires
        old(u).wf(),
    ensures
        final(u).wf(),
        final(u)@.s == old(u)@.s,
        old(u)@.i <= final(u)@.i,
        final(u)@ == sp_string_body(old(u)@, Seq::empty()).0,
        match r {
            Ok(t) => sp_string_body(old(u)@, Seq::empty()).1 == Ok::<Seq<char>, UnmarshalError>(
                t@,
            ),
            Err(e) => sp_string_body(old(u)@, Seq::empty()).1 == Err::<Seq<char>, UnmarshalError>(
                e,
            ),
        },
{
    let mut out = String::new();
    loop
        invariant
            u.wf(),
            u@.s == old(u)@.s,
            old(u)@.i <= u@.i,
            sp_string_body(u@, out@) == sp_string_body(old(u)@, Seq::<char>::empty()),
        decreases u@.s.len() - u@.i,
    {
        let ghost c_iter = u@;
        match u.next() {
            None => {
                return Err(UnmarshalError::EndOfChars);
            },
            Some(ch) => {
                if ch == '"' {
                    return Ok(out);
                } else if ch == '\\' {
                    let ghost cb = u@;
                    match u.next() {
                        None => {
                            return Err(UnmarshalError::EndOfChars);
                        },
                        Some(e) => {
                            if e == '\\' || e == '"' || e == '/' {
                                push_char(&mut out, e);
                            } else if e == 'b' {
                                push_char(&mut out, '\u{8}');
                            } else if e == 'f' {
                                push_char(&mut out, '\u{c}');
                            } else if e == 'n' {
                                push_char(&mut out, '\n');
                            } else if e == 'r' {
                                push_char(&mut out, '\r');
                            } else if e == 't' {
                                push_char(&mut out, '\t');
                            } else if e == 'u' {
                                let ghost cu = u@;
                                let decoded = try_read_unicode_escape(u)?;
                                push_char(&mut out, decoded);
                                proof {
                                    assert(sp_unicode_escape(cu).1 == Ok::<
                                        char,
                                        UnmarshalError,
                                    >(decoded));
                                }
                            } else {
                                return Err(u.unexpected_char(e));
                            }
                        },
                    }
                } else {
                    push_char(&mut out, ch);
                }
            },
        }
    }
}

impl Unmarshalable for String {
    open spec fn sp_parse(c: Cur) -> (Cur, Result<Seq<char>, UnmarshalError>) {
        sp_parse_string(c)
    }

    fn unmarshal_json_with_state(u: &mut UnmarshalIter) -> (r: Result<String, UnmarshalError>) {
        proof {
            crate::unmarshal::unmarshal_iter::lemma_skip_ws(old(u)@);
        }
        let ghost c1 = old(u)@.skip_ws();
        match u.next_non_whitespace() {
            Some('"') => {
                proof {
                    assert(c1.peek() == Some('"'));
                    assert(Self::sp_parse(old(u)@) == sp_string_body(
                        c1.adv(),
                        Seq::<char>::empty(),
                    ));
                    assert(u@ == c1.adv());
                }
            },
            got => {
                proof {
                    assert(match got {
                        Some(ch) => Self::sp_parse(old(u)@) == (
                            c1.adv(),
                            Err::<Seq<char>, UnmarshalError>(c1.adv().unexpected(Some(ch))),
                        ),
                        None => Self::sp_parse(old(u)@) == (
                            c1,
                            Err::<Seq<char>, UnmarshalError>(UnmarshalError::EndOfChars),
                        ),
                    });
                }
                return Err(u.unexpected(got));
            },
        }
        read_escaped(u)
    }
}

} // verus!
