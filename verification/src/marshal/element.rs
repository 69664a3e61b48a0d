//! The serialization of an untyped [`Element`]: each variant delegates to
//! its own rule, objects and lists recursively.
use crate::element::{lemma_view_list, lemma_view_pairs, view_list, view_pairs, Element, ValV};
use crate::marshal::bool::bool_text;
use crate::marshal::decimal::dec_text;
use crate::marshal::i64::int_text;
use crate::marshal::list::join_comma;
use crate::marshal::marshalable::{push_char, Marshalable};
use crate::marshal::null::null_text;
use crate::marshal::string::{push_string_text, string_text};
use vstd::prelude::*;

verus! {

broadcast use vstd::seq::group_seq_axioms, vstd::std_specs::vec::group_vec_axioms;

/// The member texts of an object value.
pub open spec fn txt_members(ps: Seq<(Seq<char>, ValV)>) -> Seq<Seq<char>>
    decreases ps,
{
    if ps.len() == 0 {
        Seq::empty()
    } else {
        txt_members(ps.drop_last()).push(
            string_text(ps.last().0) + seq![':', ' '] + txt_value(ps.last().1),
        )
    }
}

/// The element texts of a list value.
pub open spec fn txt_items(es: Seq<ValV>) -> Seq<Seq<char>>
    decreases es,
{
    if es.len() == 0 {
        Seq::empty()
    } else {
        txt_items(es.drop_last()).push(txt_value(es.last()))
    }
}

/// The JSON text of a value.
pub open spec fn txt_value(v: ValV) -> Seq<char>
    decreases v,
{
    match v {
        ValV::Object(ps) => seq!['{'] + join_comma(txt_members(ps)) + seq!['}'],
        ValV::List(es) => seq!['['] + join_comma(txt_items(es)) + seq![']'],
        ValV::Str(t) => string_text(t),
        ValV::Int(i) => int_text(i as int),
        ValV::Float(d) => dec_text(d),
        ValV::Bool(b) => bool_text(b),
        ValV::Null => null_text(),
    }
}

/// Member texts indexed directly.
pub proof fn lemma_txt_members(ps: Seq<(Seq<char>, ValV)>)
    ensures
        txt_members(ps).len() == ps.len(),
        forall|k: int|
            0 <= k < ps.len() ==> #[trigger] txt_members(ps)[k] == string_text(ps[k].0) + seq![
                ':',
                ' ',
            ] + txt_value(ps[k].1),
    decreases ps,
{
    if ps.len() > 0 {
        lemma_txt_members(ps.drop_last());
        assert forall|k: int| 0 <= k < ps.len() implies #[trigger] txt_members(ps)[k]
            == string_text(ps[k].0) + seq![':', ' '] + txt_value(ps[k].1) by {
            if k < ps.len() - 1 {
                assert(ps.drop_last()[k] == ps[k]);
                assert(txt_members(ps)[k] == txt_members(ps.drop_last())[k]);
            }
        }
    }
}

/// Item texts indexed directly.
pub proof fn lemma_txt_items(es: Seq<ValV>)
    ensures
        txt_items(es).len() == es.len(),
        forall|k: int| 0 <= k < es.len() ==> #[trigger] txt_items(es)[k] == txt_value(es[k]),
    decreases es,
{
    if es.len() > 0 {
        lemma_txt_items(es.drop_last());
        assert forall|k: int| 0 <= k < es.len() implies #[trigger] txt_items(es)[k] == txt_value(
            es[k],
        ) by {
            if k < es.len() - 1 {
                assert(es.drop_last()[k] == es[k]);
                assert(txt_items(es)[k] == txt_items(es.drop_last())[k]);
            }
        }
    }
}

impl Marshalable for Element {
    open spec fn json_text(&self) -> Seq<char> {
        txt_value(self@)
    }

    #[verifier::loop_isolation(false)]
    fn marshal_json_into(&self, s: &mut String)
        decreases *self,
    {
        match self {
            Element::JsonObject(ps) => {
                let ghost vps = view_pairs(ps@);
                let ghost ts = txt_members(vps);
                proof {
                    lemma_view_pairs(ps@);
                    lemma_txt_members(vps);
                }
                push_char(s, '{');
                if ps.len() > 0 {
                    push_string_text(ps[0].0.as_str(), s);
                    push_char(s, ':');
                    push_char(s, ' ');
                    ps[0].1.marshal_json_into(s);
                    proof {
                        assert(join_comma(ts.take(1)) == ts[0]);
                        assert(s@ =~= old(s)@ + seq!['{'] + join_comma(ts.take(1)));
                    }
                    let mut k: usize = 1;
                    while k < ps.len()
                        invariant
                            1 <= k <= ps@.len(),
                            s@ == old(s)@ + seq!['{'] + join_comma(ts.take(k as int)),
                        decreases ps@.len() - k,
                    {
                        push_char(s, ',');
                        push_char(s, ' ');
                        push_string_text(ps[k].0.as_str(), s);
                        push_char(s, ':');
                        push_char(s, ' ');
                        ps[k].1.marshal_json_into(s);
                        proof {
                            assert(ts.take(k + 1 as int).drop_last() =~= ts.take(k as int));
                            assert(join_comma(ts.take(k + 1 as int)) == join_comma(
                                ts.take(k as int),
                            ) + seq![',', ' '] + ts[k as int]);
                            assert(s@ =~= old(s)@ + seq!['{'] + join_comma(ts.take(k + 1 as int)));
                        }
                        k = k + 1;
                    }
                    proof {
                        assert(ts.take(ps@.len() as int) =~= ts);
                    }
                }
                push_char(s, '}');
                proof {
                    assert(s@ =~= old(s)@ + self.json_text());
                }
            },
            Element::JsonList(es) => {
                let ghost ves = view_list(es@);
                let ghost ts = txt_items(ves);
                proof {
                    lemma_view_list(es@);
                    lemma_txt_items(ves);
                }
                push_char(s, '[');
                if es.len() > 0 {
                    es[0].marshal_json_into(s);
                    proof {
                        assert(join_comma(ts.take(1)) == ts[0]);
                        assert(s@ =~= old(s)@ + seq!['['] + join_comma(ts.take(1)));
                    }
                    let mut k: usize = 1;
                    while k < es.len()
                        invariant
                            1 <= k <= es@.len(),
                            s@ == old(s)@ + seq!['['] + join_comma(ts.take(k as int)),
                        decreases es@.len() - k,
                    {
                        push_char(s, ',');
                        push_char(s, ' ');
                        es[k].marshal_json_into(s);
                        proof {
                            assert(ts.take(k + 1 as int).drop_last() =~= ts.take(k as int));
                            assert(join_comma(ts.take(k + 1 as int)) == join_comma(
                                ts.take(k as int),
                            ) + seq![',', ' '] + ts[k as int]);
                            assert(s@ =~= old(s)@ + seq!['['] + join_comma(ts.take(k + 1 as int)));
                        }
                        k = k + 1;
                    }
                    proof {
                        assert(ts.take(es@.len() as int) =~= ts);
                    }
                }
                push_char(s, ']');
                proof {
                    assert(s@ =~= old(s)@ + self.json_text());
                }
            },
            Element::JsonString(t) => {
                push_string_text(t.as_str(), s);
            },
            Element::JsonInt(i) => {
                i.marshal_json_into(s);
            },
            Element::JsonFloat(d) => {
                d.marshal_json_into(s);
            },
            Element::JsonBool(b) => {
                b.marshal_json_into(s);
            },
            Element::JsonNull => {
                s.append("null");
                proof {
                    reveal_strlit("null");
                    assert(s@ =~= old(s)@ + self.json_text());
                }
            },
        }
    }
}

impl Element {
    /// The JSON text of this element, as a fresh string.
    pub fn marshal(&self) -> (r: String)
        ensures
            r@ == txt_value(self@),
    {
        self.marshal_json()
    }
}

} // verus!
