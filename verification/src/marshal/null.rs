//! `null` and optional values. A unit value always serializes to `null`,
//! so `Option<()>` expresses "must be null, carries no payload"; any other
//! optional value serializes to `null` when absent and to the contained
//! value's text otherwise.
use crate::marshal::marshalable::Marshalable;
use vstd::prelude::*;

verus! {

/// The text of the `null` literal.
pub open spec fn null_text() -> Seq<char> {
    seq!['n', 'u', 'l', 'l']
}

impl Marshalable for () {
    open spec fn json_text(&self) -> Seq<char> {
        null_text()
    }

    fn marshal_json_into(&self, s: &mut String) {
        s.append("null");
        proof {
            reveal_strlit("null");
            assert(s@ =~= old(s)@ + self.json_text());
        }
    }
}

impl<T: Marshalable> Marshalable for Option<T> {
    open spec fn json_text(&self) -> Seq<char> {
        match self {
            Some(e) => e.json_text(),
            None => null_text(),
        }
    }

    fn marshal_json_into(&self, s: &mut String) {
        match self {
            Some(e) => e.marshal_json_into(s),
            None => {
                s.append("null");
                proof {
                    reveal_strlit("null");
                    assert(s@ =~= old(s)@ + self.json_text());
                }
            },
        }
    }
}

} // verus!
