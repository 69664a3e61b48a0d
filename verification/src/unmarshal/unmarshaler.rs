//! An earlier front end for unmarshaling an unknown element, kept for its
//! callers: it reports failures as human-readable message strings rather
//! than as [`UnmarshalError`] values.
use crate::element::Element;
use crate::marshal::i64::{nat_text, push_nat};
use crate::marshal::marshalable::push_char;
use crate::unmarshal::element::sp_value;
use crate::unmarshal::unmarshal_iter::{sp_check_finished, UnmarshalIter};
use crate::unmarshal::unmarshalable::{UnmarshalError, Unmarshalable};
use vstd::prelude::*;

verus! {

/// The message for input that ended where an element was expected.
pub open spec fn eoc_text() -> Seq<char> {
    "end of chars where element was expected"@
}

/// The message for a grammar-violating character at a 1-based position.
pub open spec fn unexpected_text(c: char, row: u32, col: u32) -> Seq<char> {
    "unexpected character `"@ + seq![c] + "` at "@ + nat_text(row as int) + seq![':']
        + nat_text(col as int)
}

/// The message for a parse error.
pub open spec fn error_text(e: UnmarshalError) -> Seq<char> {
    match e {
        UnmarshalError::UnexpectedChar { c, row, col } => unexpected_text(c, row, col),
        UnmarshalError::EndOfChars => eoc_text(),
    }
}

/// Renders a parse error as its message string.
pub fn describe_error(e: &UnmarshalError) -> (r: String)
    ensures
        r@ == error_text(*e),
{
    match e {
        UnmarshalError::EndOfChars => {
            let r = String::from_str("end of chars where element was expected");
            proof {
                reveal_strlit("end of chars where element was expected");
            }
            r
        },
        UnmarshalError::UnexpectedChar { c, row, col } => {
            let mut r = String::from_str("unexpected character `");
            push_char(&mut r, *c);
            r.append("` at ");
            push_nat(*row as u64, &mut r);
            push_char(&mut r, ':');
            push_nat(*col as u64, &mut r);
            proof {
                reveal_strlit("unexpected character `");
                reveal_strlit("` at ");
                assert(r@ =~= unexpected_text(*c, *row, *col));
            }
            r
        },
    }
}

/// Unmarshals one element from the whole input, reporting failures as
/// message strings.
pub struct Unmarshaler {
    it: UnmarshalIter,
}

impl Unmarshaler {
    /// The cursor is well formed.
    pub closed spec fn wf(&self) -> bool {
        self.it.wf()
    }

    /// The cursor state.
    pub closed spec fn cur(&self) -> crate::unmarshal::unmarshal_iter::Cur {
        self.it@
    }

    pub fn new(s: &str) -> (r: Unmarshaler)
        requires
            s@.len() < 0xFFFF_FFFF,
        ensures
            r.wf(),
            r.cur() == crate::unmarshal::unmarshal_iter::Cur::start(s@),
    {
        Unmarshaler { it: UnmarshalIter::new(s) }
    }

    /// Parses one element; after it only whitespace may remain. A failure
    /// comes back as its message string.
    pub fn unmarshal(self) -> (r: Result<Element, String>)
        requires
            self.wf(),
        ensures
            ({
                let (c1, pr) = sp_value(self.cur());
                match pr {
                    Err(e) => r matches Err(m) && m@ == error_text(e),
                    Ok(v) => match sp_check_finished(c1) {
                        Ok(unit) => r matches Ok(el) && el@ == v,
                        Err(e) => r matches Err(m) && m@ == error_text(e),
                    },
                }
            }),
    {
        let mut it = self.it;
        match Element::unmarshal_json_with_state(&mut it) {
            Err(e) => Err(describe_error(&e)),
            Ok(element) => match it.check_finished() {
                Ok(unit) => Ok(element),
                Err(e) => Err(describe_error(&e)),
            },
        }
    }
}

impl Element {
    /// Unmarshals one element from the whole input, reporting failures as
    /// message strings.
    pub fn unmarshal(s: &str) -> (r: Result<Element, String>)
        requires
            s@.len() < 0xFFFF_FFFF,
        ensures
            ({
                let (c1, pr) = sp_value(crate::unmarshal::unmarshal_iter::Cur::start(s@));
                match pr {
                    Err(e) => r matches Err(m) && m@ == error_text(e),
                    Ok(v) => match sp_check_finished(c1) {
                        Ok(unit) => r matches Ok(el) && el@ == v,
                        Err(e) => r matches Err(m) && m@ == error_text(e),
                    },
                }
            }),
    {
        Unmarshaler::new(s).unmarshal()
    }
}

} // verus!
