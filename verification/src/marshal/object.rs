//! String-keyed mappings serialize to `{` + comma-space-joined
//! `"key": value` pairs + `}`; an empty mapping is `{}`. The pairs appear
//! in the mapping's insertion order.
use crate::json_map::JsonMap;
use crate::marshal::list::join_comma;
use crate::marshal::marshalable::{push_char, Marshalable};
use crate::marshal::string::{push_string_text, string_text};
use vstd::prelude::*;

verus! {

broadcast use vstd::seq::group_seq_axioms, vstd::std_specs::vec::group_vec_axioms;

/// The text of one serialized member: quoted key, `": "`, value text.
pub open spec fn member_texts<T: Marshalable>(ps: Seq<(Seq<char>, T)>) -> Seq<Seq<char>> {
    Seq::new(ps.len(), |k: int| string_text(ps[k].0) + seq![':', ' '] + ps[k].1.json_text())
}

/// The text of a serialized mapping: joined member texts in braces.
pub open spec fn object_text(ts: Seq<Seq<char>>) -> Seq<char> {
    seq!['{'] + join_comma(ts) + seq!['}']
}

impl<T: Marshalable + DeepView> Marshalable for JsonMap<T> {
    open spec fn json_text(&self) -> Seq<char> {
        object_text(member_texts(self.spec_entries()))
    }

    #[verifier::loop_isolation(false)]
    fn marshal_json_into(&self, s: &mut String) {
        let ghost ts = member_texts(self.spec_entries());
        let entries = self.entries();
        push_char(s, '{');
        if entries.len() > 0 {
            push_string_text(entries[0].0.as_str(), s);
            push_char(s, ':');
            push_char(s, ' ');
            entries[0].1.marshal_json_into(s);
            proof {
                assert(join_comma(ts.take(1)) == ts[0]);
                assert(s@ =~= old(s)@ + seq!['{'] + join_comma(ts.take(1)));
            }
            let mut k: usize = 1;
            while k < entries.len()
                invariant
                    1 <= k <= entries@.len(),
                    s@ == old(s)@ + seq!['{'] + join_comma(ts.take(k as int)),
                decreases entries@.len() - k,
            {
                push_char(s, ',');
                push_char(s, ' ');
                push_string_text(entries[k].0.as_str(), s);
                push_char(s, ':');
                push_char(s, ' ');
                entries[k].1.marshal_json_into(s);
                proof {
                    assert(ts.take(k + 1 as int).drop_last() =~= ts.take(k as int));
                    assert(join_comma(ts.take(k + 1 as int)) == join_comma(ts.take(k as int))
                        + seq![',', ' '] + ts[k as int]);
                    assert(s@ =~= old(s)@ + seq!['{'] + join_comma(ts.take(k + 1 as int)));
                }
                k = k + 1;
            }
            proof {
                assert(ts.take(entries@.len() as int) =~= ts);
            }
        }
        push_char(s, '}');
        proof {
            assert(s@ =~= old(s)@ + self.json_text());
        }
    }
}

} // verus!
