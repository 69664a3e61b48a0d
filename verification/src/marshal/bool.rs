//! Booleans serialize to the literals `true` and `false`.
use crate::marshal::marshalable::Marshalable;
use vstd::prelude::*;

verus! {

/// The text of a boolean: `true` or `false`.
pub open spec fn bool_text(b: bool) -> Seq<char> {
    if b {
        seq!['t', 'r', 'u', 'e']
    } else {
        seq!['f', 'a', 'l', 's', 'e']
    }
}

impl Marshalable for bool {
    open spec fn json_text(&self) -> Seq<char> {
        bool_text(*self)
    }

    fn marshal_json_into(&self, s: &mut String) {
        if *self {
            s.append("true");
            proof {
                reveal_strlit("true");
                assert(s@ =~= old(s)@ + self.json_text());
            }
        } else {
            s.append("false");
            proof {
                reveal_strlit("false");
                assert(s@ =~= old(s)@ + self.json_text());
            }
        }
    }
}

} // verus!
