//! The serialization capability: every serializable type states its JSON
//! text as a specification function and appends exactly that text.
use vstd::prelude::*;

verus! {

pub trait Marshalable {
    /// The JSON text of this value.
    spec fn json_text(&self) -> Seq<char>;

    /// Appends the JSON text of this value to `s`.
    fn marshal_json_into(&self, s: &mut String)
        ensures
            final(s)@ == old(s)@ + self.json_text(),
    ;

    /// The JSON text of this value, as a fresh string.
    fn marshal_json(&self) -> (r: String)
        ensures
            r@ == self.json_text(),
    {
        let mut s = String::new();
        self.marshal_json_into(&mut s);
        proof {
            assert(s@ =~= self.json_text());
        }
        s
    }
}

/// Relies on String::push: it appends exactly one character.
#[verifier::external_body]
pub(crate) fn push_char(s: &mut String, c: char)
    ensures
        final(s)@ == old(s)@.push(c),
{
    s.push(c);
}

} // verus!
