//! The deserialization capability: a trait whose implementers consume
//! exactly the characters that belong to one value of their type and leave
//! the cursor at the first character after it, so that nested parsing
//! composes without backtracking.
use crate::unmarshal::unmarshal_iter::{Cur, UnmarshalIter};
use vstd::prelude::*;

verus! {

/// A parse failure: either a specific character violated the grammar at a
/// known position (row and column are 1-based), or the input ended where
/// the grammar required more.
#[derive(Debug, PartialEq, Eq, Structural, Clone, Copy)]
pub enum UnmarshalError {
    UnexpectedChar { c: char, row: u32, col: u32 },
    EndOfChars,
}

/// Whether an executable parse result agrees with a specification-level
/// one: equal errors, or an `Ok` value with the specified view.
pub open spec fn parse_result_matches<T: DeepView>(
    r: Result<T, UnmarshalError>,
    s: Result<T::V, UnmarshalError>,
) -> bool {
    match r {
        Ok(t) => s == Ok::<T::V, UnmarshalError>(t.deep_view()),
        Err(e) => s == Err::<T::V, UnmarshalError>(e),
    }
}

pub trait Unmarshalable: Sized + DeepView {
    /// What parsing one value of this type from the given cursor consumes
    /// and yields: the cursor after the attempt, and either the view of
    /// the parsed value or the first error met.
    spec fn sp_parse(c: Cur) -> (Cur, Result<Self::V, UnmarshalError>);

    /// Unmarshals the type using characters provided from the unmarshaler.
    /// Exhausts exactly the characters of one value and leaves any
    /// remaining characters to allow for nested unmarshaling.
    fn unmarshal_json_with_state(u: &mut UnmarshalIter) -> (r: Result<Self, UnmarshalError>)
        requires
            old(u).wf(),
        ensures
            final(u).wf(),
            final(u)@.s == old(u)@.s,
            old(u)@.i <= final(u)@.i,
            r is Ok ==> old(u)@.i < final(u)@.i,
            final(u)@ == Self::sp_parse(old(u)@).0,
            parse_result_matches(r, Self::sp_parse(old(u)@).1),
    ;

    /// Unmarshals one value from the whole input: after the value only
    /// whitespace may remain.
    fn unmarshal_json(s: &str) -> (r: Result<Self, UnmarshalError>)
        requires
            s@.len() < 0xFFFF_FFFF,
        ensures
            ({
                let (c1, pr) = Self::sp_parse(Cur::start(s@));
                parse_result_matches(
                    r,
                    match pr {
                        Err(e) => Err(e),
                        Ok(v) => match crate::unmarshal::unmarshal_iter::sp_check_finished(c1) {
                            Ok(unit) => Ok(v),
                            Err(e) => Err(e),
                        },
                    },
                )
            }),
    {
        let mut u = UnmarshalIter::new(s);
        let unmarshaled = Self::unmarshal_json_with_state(&mut u)?;
        u.check_finished()?;
        Ok(unmarshaled)
    }
}

} // verus!
