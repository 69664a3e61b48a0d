//! Sequences serialize to `[` + comma-space-joined element texts + `]`;
//! an empty sequence is `[]`.
use crate::marshal::marshalable::{push_char, Marshalable};
use vstd::prelude::*;

verus! {

broadcast use vstd::seq::group_seq_axioms, vstd::std_specs::vec::group_vec_axioms;

/// The given texts joined with `", "`.
pub open spec fn join_comma(ts: Seq<Seq<char>>) -> Seq<char>
    decreases ts,
{
    if ts.len() == 0 {
        Seq::empty()
    } else if ts.len() == 1 {
        ts[0]
    } else {
        join_comma(ts.drop_last()) + seq![',', ' '] + ts.last()
    }
}

/// The text of a serialized sequence: joined element texts in brackets.
pub open spec fn list_text(ts: Seq<Seq<char>>) -> Seq<char> {
    seq!['['] + join_comma(ts) + seq![']']
}

/// The JSON texts of the given elements.
pub open spec fn elems_texts<T: Marshalable>(es: Seq<T>) -> Seq<Seq<char>> {
    Seq::new(es.len(), |k: int| es[k].json_text())
}

/// Appends the serialization of a sequence of elements, brackets included.
#[verifier::loop_isolation(false)]
pub fn marshal_list<T: Marshalable>(elems: &Vec<T>, s: &mut String)
    ensures
        final(s)@ == old(s)@ + list_text(elems_texts(elems@)),
{
    let ghost ts = elems_texts(elems@);
    push_char(s, '[');
    if elems.len() > 0 {
        elems[0].marshal_json_into(s);
        proof {
            assert(join_comma(ts.take(1)) == ts[0]);
            assert(s@ =~= old(s)@ + seq!['['] + join_comma(ts.take(1)));
        }
        let mut k: usize = 1;
        while k < elems.len()
            invariant
                1 <= k <= elems@.len(),
                s@ == old(s)@ + seq!['['] + join_comma(ts.take(k as int)),
            decreases elems@.len() - k,
        {
            push_char(s, ',');
            push_char(s, ' ');
            elems[k].marshal_json_into(s);
            proof {
                assert(ts.take(k + 1 as int).drop_last() =~= ts.take(k as int));
                assert(join_comma(ts.take(k + 1 as int)) == join_comma(ts.take(k as int)) + seq![
                    ',',
                    ' ',
                ] + ts[k as int]);
                assert(s@ =~= old(s)@ + seq!['['] + join_comma(ts.take(k + 1 as int)));
            }
            k = k + 1;
        }
        proof {
            assert(ts.take(elems@.len() as int) =~= ts);
        }
    }
    push_char(s, ']');
    proof {
        assert(s@ =~= old(s)@ + list_text(ts));
    }
}

impl<T: Marshalable> Marshalable for Vec<T> {
    open spec fn json_text(&self) -> Seq<char> {
        list_text(elems_texts(self@))
    }

    fn marshal_json_into(&self, s: &mut String) {
        marshal_list(self, s)
    }
}

} // verus!
