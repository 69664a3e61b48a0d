//! The round-trip induction over whole values: serializing a well-formed
//! value whose numbers all print fractionally, then parsing the text back,
//! restores the value exactly.
use crate::chars::is_ws;
use crate::element::ValV;
use crate::laws::{
    after_ok, ff_list, ff_pairs, floats_fractional, lemma_join_cons, lemma_list_at,
    lemma_pairs_at, lemma_rt_bool, lemma_rt_dec, lemma_rt_int, lemma_rt_null, lemma_rt_string,
    lemma_rt_string_body, lemma_skip_one_ws, lemma_text_split, lemma_txt_first, num_stop,
};
use crate::marshal::element::{
    lemma_txt_items, lemma_txt_members, txt_items, txt_members, txt_value,
};
use crate::marshal::list::join_comma;
use crate::marshal::string::{escs, string_text};
use crate::unmarshal::element::{
    num_value, sp_list_elems, sp_list_first, sp_obj_first, sp_obj_members, sp_obj_pair, sp_value,
};
use crate::unmarshal::string::sp_parse_string;
use crate::unmarshal::unmarshal_iter::Cur;
use crate::unmarshal::unmarshalable::UnmarshalError;
use vstd::prelude::*;

verus! {

broadcast use vstd::seq::group_seq_axioms;

/// Reading a serialized value back restores it exactly: the parser
/// consumes exactly the value's text and yields the value. Every number
/// must print fractionally, and the character after the text, if any,
/// must be a separator or a closing bracket.
#[verifier::rlimit(100)]
#[verifier::spinoff_prover]
pub proof fn lemma_rt_value(v: ValV, c: Cur)
    requires
        v.wf(),
        floats_fractional(v),
        0 <= c.i,
        c.i + txt_value(v).len() <= c.s.len(),
        c.s.subrange(c.i, c.i + txt_value(v).len()) == txt_value(v),
        c.i + txt_value(v).len() == c.s.len() || after_ok(c.s[c.i + txt_value(v).len()]),
    ensures
        sp_value(c).0.s == c.s,
        sp_value(c).0.i == c.i + txt_value(v).len(),
        sp_value(c).1 == Ok::<ValV, UnmarshalError>(v),
    decreases v, 0int,
{
    let t = txt_value(v);
    lemma_txt_first(v);
    assert(c.s[c.i] == t[0]) by {
        assert(c.s.subrange(c.i, c.i + t.len())[0] == t[0]);
    }
    assert(c.peek() == Some(t[0]));
    match v {
        ValV::Null => {
            lemma_rt_null(c);
        },
        ValV::Bool(b) => {
            lemma_rt_bool(b, c);
        },
        ValV::Int(i) => {
            lemma_rt_int(i, c);
            assert(t[0] != '{' && t[0] != '[' && t[0] != '"' && t[0] != 'n' && t[0] != 't' && t[0]
                != 'f');
            assert(crate::unmarshal::element::starts_number(t[0]));
            assert(c.i + t.len() == c.s.len() || num_stop(c.s[c.i + t.len()]));
        },
        ValV::Float(d) => {
            lemma_rt_dec(d, c);
            assert(t[0] != '{' && t[0] != '[' && t[0] != '"' && t[0] != 'n' && t[0] != 't' && t[0]
                != 'f');
            assert(crate::unmarshal::element::starts_number(t[0]));
            assert(c.i + t.len() == c.s.len() || num_stop(c.s[c.i + t.len()]));
        },
        ValV::Str(w) => {
            assert(t == string_text(w));
            assert(seq!['"'] + (escs(w) + seq!['"']) =~= t);
            lemma_text_split(c, seq!['"'], escs(w) + seq!['"']);
            lemma_rt_string_body(w, c.adv(), Seq::empty());
            assert(Seq::<char>::empty() + w =~= w);
        },
        ValV::List(es) => {
            lemma_rt_value_list(es, c);
        },
        ValV::Object(ps) => {
            lemma_rt_value_obj(ps, c);
        },
    }
}

/// The list arm: `[`, then either `]` or the elements.
#[verifier::rlimit(100)]
#[verifier::spinoff_prover]
proof fn lemma_rt_value_list(es: Seq<ValV>, c: Cur)
    requires
        ValV::List(es).wf(),
        floats_fractional(ValV::List(es)),
        0 <= c.i,
        c.i + txt_value(ValV::List(es)).len() <= c.s.len(),
        c.s.subrange(c.i, c.i + txt_value(ValV::List(es)).len()) == txt_value(ValV::List(es)),
    ensures
        sp_value(c).0.s == c.s,
        sp_value(c).0.i == c.i + txt_value(ValV::List(es)).len(),
        sp_value(c).1 == Ok::<ValV, UnmarshalError>(ValV::List(es)),
    decreases es, es.len() + 1,
{
    let v = ValV::List(es);
    let t = txt_value(v);
    let ts = txt_items(es);
    lemma_txt_items(es);
    assert(t == seq!['['] + join_comma(ts) + seq![']']);
    assert(c.s[c.i] == '[') by {
        assert(c.s.subrange(c.i, c.i + t.len())[0] == t[0]);
    }
    assert(!is_ws('['));
    assert(c.peek() == Some('['));
    assert(c.s[c.i + 1] == t[1]) by {
        assert(c.s.subrange(c.i, c.i + t.len())[1] == t[1]);
    }
    assert(t.len() == join_comma(ts).len() + 2);
    assert(sp_value(c) == sp_list_first(c.adv()));
    if es.len() == 0 {
        assert(join_comma(ts).len() == 0);
        assert(t[1] == (seq!['['] + join_comma(ts) + seq![']'])[1]);
        assert(c.adv().peek() == Some(']'));
        assert(!is_ws(']'));
        assert(sp_list_first(c.adv()) == (
            c.adv().adv(),
            Ok::<ValV, UnmarshalError>(ValV::List(Seq::empty())),
        ));
        assert(es =~= Seq::<ValV>::empty());
    } else {
        lemma_list_at(es);
        assert(seq!['['] + (join_comma(ts) + seq![']']) =~= t);
        lemma_text_split(c, seq!['['], join_comma(ts) + seq![']']);
        assert(es.skip(0) =~= es);
        assert(ts.skip(0) =~= ts);
        lemma_rt_elems(es, 0, c.adv(), Seq::empty());
        assert(Seq::<ValV>::empty() + es =~= es);
        lemma_txt_first(es[0]);
        lemma_join_cons(ts);
        assert(t[1] == (seq!['['] + join_comma(ts) + seq![']'])[1]);
        assert(join_comma(ts)[0] == (ts[0] + seq![',', ' '] + join_comma(ts.drop_first()))[0]
            || join_comma(ts) == ts[0]);
        assert(join_comma(ts)[0] == ts[0][0]);
        assert(c.adv().peek() == Some(txt_value(es[0])[0]));
        assert(!is_ws(txt_value(es[0])[0]) && txt_value(es[0])[0] != ']');
        assert(sp_list_first(c.adv()) == sp_list_elems(c.adv(), Seq::<ValV>::empty()));
    }
}

/// The object arm: `{`, then either `}` or the members.
#[verifier::rlimit(100)]
#[verifier::spinoff_prover]
proof fn lemma_rt_value_obj(ps: Seq<(Seq<char>, ValV)>, c: Cur)
    requires
        ValV::Object(ps).wf(),
        floats_fractional(ValV::Object(ps)),
        0 <= c.i,
        c.i + txt_value(ValV::Object(ps)).len() <= c.s.len(),
        c.s.subrange(c.i, c.i + txt_value(ValV::Object(ps)).len()) == txt_value(ValV::Object(ps)),
    ensures
        sp_value(c).0.s == c.s,
        sp_value(c).0.i == c.i + txt_value(ValV::Object(ps)).len(),
        sp_value(c).1 == Ok::<ValV, UnmarshalError>(ValV::Object(ps)),
    decreases ps, ps.len() + 1,
{
    let v = ValV::Object(ps);
    let t = txt_value(v);
    let ts = txt_members(ps);
    lemma_txt_members(ps);
    assert(t == seq!['{'] + join_comma(ts) + seq!['}']);
    assert(c.s[c.i] == '{') by {
        assert(c.s.subrange(c.i, c.i + t.len())[0] == t[0]);
    }
    assert(!is_ws('{'));
    assert(c.peek() == Some('{'));
    assert(c.s[c.i + 1] == t[1]) by {
        assert(c.s.subrange(c.i, c.i + t.len())[1] == t[1]);
    }
    assert(t.len() == join_comma(ts).len() + 2);
    assert(sp_value(c) == sp_obj_first(c.adv()));
    if ps.len() == 0 {
        assert(join_comma(ts).len() == 0);
        assert(t[1] == (seq!['{'] + join_comma(ts) + seq!['}'])[1]);
        assert(c.adv().peek() == Some('}'));
        assert(!is_ws('}'));
        assert(sp_obj_first(c.adv()) == (
            c.adv().adv(),
            Ok::<ValV, UnmarshalError>(ValV::Object(Seq::empty())),
        ));
        assert(ps =~= Seq::<(Seq<char>, ValV)>::empty());
    } else {
        lemma_pairs_at(ps);
        assert(seq!['{'] + (join_comma(ts) + seq!['}']) =~= t);
        lemma_text_split(c, seq!['{'], join_comma(ts) + seq!['}']);
        assert(ps.take(0) =~= Seq::<(Seq<char>, ValV)>::empty());
        assert(ts.skip(0) =~= ts);
        lemma_rt_members(ps, 0, c.adv(), Seq::empty());
        lemma_join_cons(ts);
        assert(t[1] == (seq!['{'] + join_comma(ts) + seq!['}'])[1]);
        assert(ts[0] == string_text(ps[0].0) + seq![':', ' '] + txt_value(ps[0].1));
        assert(ts[0][0] == '"');
        assert(join_comma(ts)[0] == (ts[0] + seq![',', ' '] + join_comma(ts.drop_first()))[0]
            || join_comma(ts) == ts[0]);
        assert(join_comma(ts)[0] == ts[0][0]);
        assert(c.adv().peek() == Some('"'));
        assert(!is_ws('"') && '"' != '}');
        assert(sp_obj_first(c.adv()) == sp_obj_members(
            c.adv(),
            Seq::<(Seq<char>, ValV)>::empty(),
        ));
    }
}

/// Reading the rest of a list's elements back, from the start of element
/// `k`'s text.
#[verifier::rlimit(100)]
#[verifier::spinoff_prover]
proof fn lemma_rt_elems(es: Seq<ValV>, k: int, c: Cur, acc: Seq<ValV>)
    requires
        crate::element::wf_list(es),
        ff_list(es),
        0 <= k < es.len(),
        0 <= c.i,
        c.i + join_comma(txt_items(es).skip(k)).len() + 1 <= c.s.len(),
        c.s.subrange(c.i, c.i + join_comma(txt_items(es).skip(k)).len() + 1) == join_comma(
            txt_items(es).skip(k),
        ) + seq![']'],
    ensures
        sp_list_elems(c, acc).0.s == c.s,
        sp_list_elems(c, acc).0.i == c.i + join_comma(txt_items(es).skip(k)).len() + 1,
        sp_list_elems(c, acc).1 == Ok::<ValV, UnmarshalError>(ValV::List(acc + es.skip(k))),
    decreases es, es.len() - k,
{
    let ts = txt_items(es);
    lemma_txt_items(es);
    lemma_list_at(es);
    let tsk = ts.skip(k);
    assert(tsk.len() == es.len() - k);
    assert(tsk[0] == ts[k]);
    lemma_join_cons(tsk);
    let et = txt_value(es[k]);
    assert(ts[k] == et);
    lemma_txt_first(es[k]);
    if k == es.len() - 1 {
        assert(tsk.len() == 1);
        assert(join_comma(tsk) == et);
        lemma_text_split(c, et, seq![']']);
        assert(c.s[c.i + et.len()] == ']') by {
            assert(c.s.subrange(c.i + et.len(), c.i + et.len() + 1)[0] == ']');
        }
        lemma_rt_value(es[k], c);
        let c2 = sp_value(c).0;
        assert(c2.peek() == Some(']'));
        assert(!is_ws(']'));
        assert(c2.skip_ws() == c2);
        assert(acc.push(es[k]) =~= acc + es.skip(k));
    } else {
        lemma_rt_elems_step(es, k, c, acc);
    }
}

/// A non-final element: the element's text, a comma, one blank, then the
/// remaining elements.
#[verifier::rlimit(100)]
#[verifier::spinoff_prover]
proof fn lemma_rt_elems_step(es: Seq<ValV>, k: int, c: Cur, acc: Seq<ValV>)
    requires
        crate::element::wf_list(es),
        ff_list(es),
        0 <= k < es.len() - 1,
        0 <= c.i,
        c.i + join_comma(txt_items(es).skip(k)).len() + 1 <= c.s.len(),
        c.s.subrange(c.i, c.i + join_comma(txt_items(es).skip(k)).len() + 1) == join_comma(
            txt_items(es).skip(k),
        ) + seq![']'],
    ensures
        sp_list_elems(c, acc).0.s == c.s,
        sp_list_elems(c, acc).0.i == c.i + join_comma(txt_items(es).skip(k)).len() + 1,
        sp_list_elems(c, acc).1 == Ok::<ValV, UnmarshalError>(ValV::List(acc + es.skip(k))),
    decreases es, es.len() - k, 0int,
{
    let ts = txt_items(es);
    lemma_txt_items(es);
    lemma_list_at(es);
    let tsk = ts.skip(k);
    lemma_join_cons(tsk);
    let et = txt_value(es[k]);
    assert(tsk[0] == ts[k] && ts[k] == et);
    lemma_txt_first(es[k]);
    let rest = join_comma(ts.skip(k + 1));
    assert(ts.skip(k).drop_first() =~= ts.skip(k + 1));
    assert(join_comma(tsk) == et + seq![',', ' '] + rest);
    assert(et + (seq![',', ' '] + (rest + seq![']'])) =~= join_comma(tsk) + seq![']']);
    lemma_text_split(c, et, seq![',', ' '] + (rest + seq![']']));
    let tail = seq![',', ' '] + (rest + seq![']']);
    assert(c.s[c.i + et.len()] == ',') by {
        assert(c.s.subrange(c.i + et.len(), c.i + et.len() + tail.len())[0] == tail[0]);
    }
    assert(c.s[c.i + et.len() + 1] == ' ') by {
        assert(c.s.subrange(c.i + et.len(), c.i + et.len() + tail.len())[1] == tail[1]);
    }
    assert(after_ok(c.s[c.i + et.len()]));
    lemma_rt_value(es[k], c);
    let c2 = sp_value(c).0;
    assert(c2.i == c.i + et.len());
    assert(c2.peek() == Some(','));
    assert(!is_ws(','));
    assert(c2.skip_ws() == c2);
    let cc = c2.adv();
    lemma_txt_first(es[k + 1]);
    assert(cc.s[cc.i] == ' ');
    lemma_join_cons(ts.skip(k + 1));
    assert(ts.skip(k + 1)[0] == ts[k + 1]);
    assert(rest[0] == txt_value(es[k + 1])[0]);
    assert(cc.s[cc.i + 1] == rest[0]) by {
        assert(c.s.subrange(c.i + et.len(), c.i + et.len() + tail.len())[2] == tail[2]);
        assert(tail[2] == (rest + seq![']'])[0]);
    }
    assert(is_ws(' '));
    lemma_skip_one_ws(cc);
    crate::unmarshal::element::lemma_sp_value_ws(cc);
    let cn = cc.adv();
    assert forall|j: int|
        0 <= j < rest.len() + 1 implies cn.s.subrange(cn.i, cn.i + rest.len() + 1)[j] == (rest
        + seq![']'])[j] by {
        assert(c.s.subrange(c.i + et.len(), c.i + et.len() + tail.len())[2 + j] == tail[2 + j]);
        assert(tail[2 + j] == (rest + seq![']'])[j]);
    }
    assert(cn.s.subrange(cn.i, cn.i + rest.len() + 1) =~= rest + seq![']']);
    lemma_rt_elems(es, k + 1, cn, acc.push(es[k]));
    assert(sp_value(cc) == sp_value(cn)) by {
        assert(cc.skip_ws() == cn && cn.skip_ws() == cn);
    }
    assert(sp_list_elems(cc, acc.push(es[k])) == sp_list_elems(cn, acc.push(es[k])));
    assert(acc.push(es[k]) + es.skip(k + 1) =~= acc + es.skip(k));
}

/// Reading one member back: the quoted key, the colon and blank, then the
/// value, with a separator or closing brace after.
#[verifier::rlimit(100)]
#[verifier::spinoff_prover]
proof fn lemma_rt_pair(key: Seq<char>, val: ValV, c: Cur)
    requires
        val.wf(),
        floats_fractional(val),
        0 <= c.i,
        c.i + string_text(key).len() + 2 + txt_value(val).len() < c.s.len(),
        c.s.subrange(
            c.i,
            c.i + string_text(key).len() + 2 + txt_value(val).len(),
        ) == string_text(key) + seq![':', ' '] + txt_value(val),
        after_ok(c.s[c.i + string_text(key).len() + 2 + txt_value(val).len()]),
    ensures
        sp_obj_pair(c).0.s == c.s,
        sp_obj_pair(c).0.i == c.i + string_text(key).len() + 2 + txt_value(val).len(),
        sp_obj_pair(c).1 == Ok::<(Seq<char>, ValV), UnmarshalError>((key, val)),
    decreases val, 1int,
{
    let kt = string_text(key);
    let vt = txt_value(val);
    assert(kt + (seq![':', ' '] + vt) =~= kt + seq![':', ' '] + vt);
    lemma_text_split(c, kt, seq![':', ' '] + vt);
    lemma_rt_string(key, c);
    let c2 = sp_parse_string(c).0;
    assert(c2.i == c.i + kt.len());
    let tail = seq![':', ' '] + vt;
    assert(c.s[c2.i] == ':') by {
        assert(c.s.subrange(c.i + kt.len(), c.i + kt.len() + tail.len())[0] == tail[0]);
    }
    assert(c2.peek() == Some(':'));
    assert(!is_ws(':'));
    assert(c2.skip_ws() == c2);
    let cc = c2.adv();
    lemma_txt_first(val);
    assert(c.s[c2.i + 1] == ' ') by {
        assert(c.s.subrange(c.i + kt.len(), c.i + kt.len() + tail.len())[1] == tail[1]);
    }
    assert(cc.s[cc.i] == ' ');
    assert(cc.s[cc.i + 1] == vt[0]) by {
        assert(c.s.subrange(c.i + kt.len(), c.i + kt.len() + tail.len())[2] == tail[2]);
        assert(tail[2] == vt[0]);
    }
    assert(is_ws(' '));
    lemma_skip_one_ws(cc);
    crate::unmarshal::element::lemma_sp_value_ws(cc);
    let cn = cc.adv();
    assert forall|j: int| 0 <= j < vt.len() implies cn.s.subrange(cn.i, cn.i + vt.len())[j]
        == vt[j] by {
        assert(c.s.subrange(c.i + kt.len(), c.i + kt.len() + tail.len())[2 + j] == tail[2 + j]);
        assert(tail[2 + j] == vt[j]);
    }
    assert(cn.s.subrange(cn.i, cn.i + vt.len()) =~= vt);
    assert(cn.i + vt.len() < c.s.len() && after_ok(c.s[cn.i + vt.len()]));
    lemma_rt_value(val, cn);
    assert(sp_value(cc) == sp_value(cn)) by {
        assert(cc.skip_ws() == cn && cn.skip_ws() == cn);
    }
}

/// Reading the rest of an object's members back, from the start of member
/// `k`'s text.
#[verifier::rlimit(100)]
#[verifier::spinoff_prover]
proof fn lemma_rt_members(ps: Seq<(Seq<char>, ValV)>, k: int, c: Cur, acc: Seq<(Seq<char>, ValV)>)
    requires
        crate::element::wf_pairs(ps),
        ff_pairs(ps),
        0 <= k < ps.len(),
        acc == ps.take(k),
        0 <= c.i,
        c.i + join_comma(txt_members(ps).skip(k)).len() + 1 <= c.s.len(),
        c.s.subrange(c.i, c.i + join_comma(txt_members(ps).skip(k)).len() + 1) == join_comma(
            txt_members(ps).skip(k),
        ) + seq!['}'],
    ensures
        sp_obj_members(c, acc).0.s == c.s,
        sp_obj_members(c, acc).0.i == c.i + join_comma(txt_members(ps).skip(k)).len() + 1,
        sp_obj_members(c, acc).1 == Ok::<ValV, UnmarshalError>(ValV::Object(ps)),
    decreases ps, ps.len() - k,
{
    let ts = txt_members(ps);
    lemma_txt_members(ps);
    lemma_pairs_at(ps);
    let tsk = ts.skip(k);
    assert(tsk.len() == ps.len() - k);
    assert(tsk[0] == ts[k]);
    lemma_join_cons(tsk);
    let key = ps[k].0;
    let val = ps[k].1;
    let mt = ts[k];
    assert(mt == string_text(key) + seq![':', ' '] + txt_value(val));
    assert(mt.len() == string_text(key).len() + 2 + txt_value(val).len());
    assert forall|q: int| 0 <= q < acc.len() implies #[trigger] acc[q].0 != key by {
        assert(acc[q] == ps[q]);
        assert(ps[q].0 != ps[k].0);
    }
    crate::json_map::lemma_sp_insert_fresh(acc, key, val);
    assert(acc.push((key, val)) =~= ps.take(k + 1));
    if k == ps.len() - 1 {
        assert(tsk.len() == 1);
        assert(join_comma(tsk) == mt);
        lemma_text_split(c, mt, seq!['}']);
        assert(c.s[c.i + mt.len()] == '}') by {
            assert(c.s.subrange(c.i + mt.len(), c.i + mt.len() + 1)[0] == '}');
        }
        lemma_rt_pair(key, val, c);
        let c2 = sp_obj_pair(c).0;
        assert(c2.peek() == Some('}'));
        assert(!is_ws('}'));
        assert(c2.skip_ws() == c2);
        assert(ps.take(k + 1) =~= ps);
    } else {
        lemma_rt_members_step(ps, k, c, acc);
    }
}

/// A non-final member: the member's text, a comma, one blank, then the
/// remaining members.
#[verifier::rlimit(100)]
#[verifier::spinoff_prover]
proof fn lemma_rt_members_step(ps: Seq<(Seq<char>, ValV)>, k: int, c: Cur, acc: Seq<
    (Seq<char>, ValV),
>)
    requires
        crate::element::wf_pairs(ps),
        ff_pairs(ps),
        0 <= k < ps.len() - 1,
        acc == ps.take(k),
        0 <= c.i,
        c.i + join_comma(txt_members(ps).skip(k)).len() + 1 <= c.s.len(),
        c.s.subrange(c.i, c.i + join_comma(txt_members(ps).skip(k)).len() + 1) == join_comma(
            txt_members(ps).skip(k),
        ) + seq!['}'],
    ensures
        sp_obj_members(c, acc).0.s == c.s,
        sp_obj_members(c, acc).0.i == c.i + join_comma(txt_members(ps).skip(k)).len() + 1,
        sp_obj_members(c, acc).1 == Ok::<ValV, UnmarshalError>(ValV::Object(ps)),
    decreases ps, ps.len() - k, 0int,
{
    let ts = txt_members(ps);
    lemma_txt_members(ps);
    lemma_pairs_at(ps);
    let tsk = ts.skip(k);
    lemma_join_cons(tsk);
    let key = ps[k].0;
    let val = ps[k].1;
    let mt = ts[k];
    assert(tsk[0] == ts[k]);
    assert(mt == string_text(key) + seq![':', ' '] + txt_value(val));
    assert(mt.len() == string_text(key).len() + 2 + txt_value(val).len());
    assert forall|q: int| 0 <= q < acc.len() implies #[trigger] acc[q].0 != key by {
        assert(acc[q] == ps[q]);
        assert(ps[q].0 != ps[k].0);
    }
    crate::json_map::lemma_sp_insert_fresh(acc, key, val);
    assert(acc.push((key, val)) =~= ps.take(k + 1));
    let rest = join_comma(ts.skip(k + 1));
    assert(ts.skip(k).drop_first() =~= ts.skip(k + 1));
    assert(join_comma(tsk) == mt + seq![',', ' '] + rest);
    assert(mt + (seq![',', ' '] + (rest + seq!['}'])) =~= join_comma(tsk) + seq!['}']);
    lemma_text_split(c, mt, seq![',', ' '] + (rest + seq!['}']));
    let tail = seq![',', ' '] + (rest + seq!['}']);
    assert(c.s[c.i + mt.len()] == ',') by {
        assert(c.s.subrange(c.i + mt.len(), c.i + mt.len() + tail.len())[0] == tail[0]);
    }
    assert(c.s[c.i + mt.len() + 1] == ' ') by {
        assert(c.s.subrange(c.i + mt.len(), c.i + mt.len() + tail.len())[1] == tail[1]);
    }
    assert(after_ok(c.s[c.i + mt.len()]));
    lemma_rt_pair(key, val, c);
    let c2 = sp_obj_pair(c).0;
    assert(c2.i == c.i + mt.len());
    assert(c2.peek() == Some(','));
    assert(!is_ws(','));
    assert(c2.skip_ws() == c2);
    let cc = c2.adv();
    assert(cc.s[cc.i] == ' ');
    lemma_join_cons(ts.skip(k + 1));
    assert(ts.skip(k + 1)[0] == ts[k + 1]);
    assert(ts[k + 1] == string_text(ps[k + 1].0) + seq![':', ' '] + txt_value(ps[k + 1].1));
    assert(rest[0] == '"');
    assert(cc.s[cc.i + 1] == rest[0]) by {
        assert(c.s.subrange(c.i + mt.len(), c.i + mt.len() + tail.len())[2] == tail[2]);
        assert(tail[2] == (rest + seq!['}'])[0]);
    }
    assert(is_ws(' ') && !is_ws('"'));
    let cn = cc.adv();
    assert forall|j: int|
        0 <= j < rest.len() + 1 implies cn.s.subrange(cn.i, cn.i + rest.len() + 1)[j] == (rest
        + seq!['}'])[j] by {
        assert(c.s.subrange(c.i + mt.len(), c.i + mt.len() + tail.len())[2 + j] == tail[2 + j]);
        assert(tail[2 + j] == (rest + seq!['}'])[j]);
    }
    assert(cn.s.subrange(cn.i, cn.i + rest.len() + 1) =~= rest + seq!['}']);
    lemma_rt_members(ps, k + 1, cn, acc.push((key, val)));
    // the member loop looks through the one blank before the next key
    assert(sp_obj_pair(cc) == sp_obj_pair(cn)) by {
        lemma_skip_one_ws(cc);
        assert(cc.skip_ws() == cn && cn.skip_ws() == cn);
        assert(crate::unmarshal::string::sp_parse_string(cc)
            == crate::unmarshal::string::sp_parse_string(cn));
    }
    assert(sp_obj_members(cc, acc.push((key, val))) == sp_obj_members(cn, acc.push((key, val))));
}

/// Round trip: parsing the serialized text of a well-formed value whose
/// numbers all print fractionally yields exactly the value again, with
/// nothing but the value's own text consumed. A number that prints without
/// a decimal point (a whole-valued or zero decimal) parses back as an
/// integer instead, so such values are left out.
pub proof fn lemma_round_trip(v: ValV)
    requires
        v.wf(),
        floats_fractional(v),
    ensures
        ({
            let (c1, pr) = sp_value(Cur::start(txt_value(v)));
            pr == Ok::<ValV, UnmarshalError>(v)
                && crate::unmarshal::unmarshal_iter::sp_check_finished(c1) == Ok::<
                (),
                UnmarshalError,
            >(())
        }),
{
    let s = txt_value(v);
    let c0 = Cur::start(s);
    lemma_txt_first(v);
    assert(c0.s.subrange(0, s.len() as int) =~= s);
    lemma_rt_value(v, c0);
    let c1 = sp_value(c0).0;
    assert(c1.i == s.len());
    assert(c1.peek() is None);
    assert(c1.skip_ws() == c1);
}

/// Serialization is deterministic: the text depends on the value alone.
pub proof fn lemma_marshal_deterministic(a: crate::element::Element, b: crate::element::Element)
    requires
        a@ == b@,
    ensures
        crate::marshal::marshalable::Marshalable::json_text(&a)
            == crate::marshal::marshalable::Marshalable::json_text(&b),
{
}

/// Reparsing serialized output: when a text parses to a well-formed value
/// whose numbers all print fractionally, serializing that value and
/// parsing the result yields an equal value, though the two texts may
/// differ in whitespace and escapes.
pub proof fn lemma_reparse_output(s: Seq<char>, w: ValV)
    requires
        w.wf(),
        floats_fractional(w),
        sp_value(Cur::start(s)).1 == Ok::<ValV, UnmarshalError>(w),
    ensures
        sp_value(Cur::start(txt_value(w))).1 == Ok::<ValV, UnmarshalError>(w),
{
    lemma_round_trip(w);
}

} // verus!
