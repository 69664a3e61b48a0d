//! A string-keyed mapping with pairwise distinct keys, kept in insertion
//! order. It is the serialized and parsed form of a JSON object when the
//! value type is known statically; inserting an existing key overwrites
//! the earlier value in place (last write wins).
use crate::chars::str_eq;
use vstd::prelude::*;

verus! {

broadcast use vstd::seq::group_seq_axioms, vstd::std_specs::vec::group_vec_axioms;

/// Pairwise distinct keys.
pub open spec fn keys_unique<V>(ps: Seq<(Seq<char>, V)>) -> bool {
    forall|j: int, k: int| 0 <= j < k < ps.len() ==> ps[j].0 != ps[k].0
}

/// Insertion with overwrite: the first pair carrying the key is replaced
/// in place; a fresh key goes to the end.
pub open spec fn sp_insert<V>(ps: Seq<(Seq<char>, V)>, key: Seq<char>, v: V) -> Seq<
    (Seq<char>, V),
>
    decreases ps,
{
    if ps.len() == 0 {
        seq![(key, v)]
    } else if ps[0].0 == key {
        seq![(key, v)] + ps.drop_first()
    } else {
        seq![ps[0]] + sp_insert(ps.drop_first(), key, v)
    }
}

/// Lookup: the value of the first pair carrying the key.
pub open spec fn sp_get<V>(ps: Seq<(Seq<char>, V)>, key: Seq<char>) -> Option<V>
    decreases ps,
{
    if ps.len() == 0 {
        None
    } else if ps[0].0 == key {
        Some(ps[0].1)
    } else {
        sp_get(ps.drop_first(), key)
    }
}

/// Inserting keeps the pair count except when the key is fresh, keeps
/// distinct keys distinct, and afterwards the key maps to the value.
pub proof fn lemma_sp_insert<V>(ps: Seq<(Seq<char>, V)>, key: Seq<char>, v: V)
    ensures
        sp_get(ps, key) is Some ==> sp_insert(ps, key, v).len() == ps.len(),
        sp_get(ps, key) is None ==> sp_insert(ps, key, v) == ps.push((key, v)),
        keys_unique(ps) ==> keys_unique(sp_insert(ps, key, v)),
        sp_get(sp_insert(ps, key, v), key) == Some(v),
        forall|k2: Seq<char>|
            k2 != key ==> #[trigger] sp_get(sp_insert(ps, key, v), k2) == sp_get(ps, k2),
    decreases ps,
{
    if ps.len() == 0 {
        assert(sp_insert(ps, key, v) =~= ps.push((key, v)));
        assert forall|k2: Seq<char>| k2 != key implies #[trigger] sp_get(sp_insert(ps, key, v), k2)
            == sp_get(ps, k2) by {
            assert(sp_insert(ps, key, v).drop_first() =~= ps);
        }
    } else if ps[0].0 == key {
        let r = sp_insert(ps, key, v);
        assert(r.drop_first() =~= ps.drop_first());
        assert forall|k2: Seq<char>| k2 != key implies #[trigger] sp_get(r, k2) == sp_get(
            ps,
            k2,
        ) by {
            assert(sp_get(r, k2) == sp_get(r.drop_first(), k2));
            assert(sp_get(ps, k2) == sp_get(ps.drop_first(), k2));
        }
        if keys_unique(ps) {
            assert forall|j: int, k: int| 0 <= j < k < r.len() implies r[j].0 != r[k].0 by {
                if j > 0 {
                    assert(ps[j].0 != ps[k].0);
                } else {
                    assert(ps[0].0 != ps[k].0);
                }
            }
        }
    } else {
        lemma_sp_insert(ps.drop_first(), key, v);
        let r = sp_insert(ps, key, v);
        assert(r.drop_first() =~= sp_insert(ps.drop_first(), key, v));
        assert(r[0] == ps[0]);
        assert forall|k2: Seq<char>| k2 != key implies #[trigger] sp_get(r, k2) == sp_get(
            ps,
            k2,
        ) by {
            if ps[0].0 == k2 {
                assert(sp_get(r, k2) == Some(r[0].1));
            } else {
                assert(sp_get(r, k2) == sp_get(r.drop_first(), k2));
                assert(sp_get(ps, k2) == sp_get(ps.drop_first(), k2));
            }
        }
        if sp_get(ps, key) is None {
            assert(r =~= ps.push((key, v)));
        }
        if keys_unique(ps) {
            assert(keys_unique(ps.drop_first())) by {
                assert forall|j: int, k: int|
                    0 <= j < k < ps.drop_first().len() implies ps.drop_first()[j].0
                    != ps.drop_first()[k].0 by {
                    assert(ps[j + 1].0 != ps[k + 1].0);
                }
            }
            lemma_sp_get_some_key(ps.drop_first(), key, v);
            assert forall|j: int, k: int| 0 <= j < k < r.len() implies r[j].0 != r[k].0 by {
                if j > 0 {
                    assert(r[j] == r.drop_first()[j - 1]);
                    assert(r[k] == r.drop_first()[k - 1]);
                } else {
                    // r[0] is ps[0], whose key differs from every later key:
                    // later pairs keep keys of ps.drop_first(), or the fresh key.
                    assert(r[k] == r.drop_first()[k - 1]);
                    lemma_sp_insert_keys(ps.drop_first(), key, v, k - 1);
                }
            }
        }
    }
}

/// Every key of an inserted-into sequence is an old key or the new one.
proof fn lemma_sp_insert_keys<V>(ps: Seq<(Seq<char>, V)>, key: Seq<char>, v: V, j: int)
    requires
        0 <= j < sp_insert(ps, key, v).len(),
    ensures
        sp_insert(ps, key, v)[j].0 == key || exists|q: int|
            0 <= q < ps.len() && ps[q].0 == #[trigger] sp_insert(ps, key, v)[j].0,
    decreases ps,
{
    if ps.len() == 0 {
    } else if ps[0].0 == key {
        if j > 0 {
            assert(sp_insert(ps, key, v)[j] == ps.drop_first()[j - 1]);
            assert(ps[j] == ps.drop_first()[j - 1]);
        }
    } else {
        if j > 0 {
            lemma_sp_insert_keys(ps.drop_first(), key, v, j - 1);
            assert(sp_insert(ps, key, v)[j] == sp_insert(ps.drop_first(), key, v)[j - 1]);
            if sp_insert(ps.drop_first(), key, v)[j - 1].0 != key {
                let q = choose|q: int|
                    0 <= q < ps.drop_first().len() && ps.drop_first()[q].0 == sp_insert(
                        ps.drop_first(),
                        key,
                        v,
                    )[j - 1].0;
                assert(ps[q + 1].0 == sp_insert(ps, key, v)[j].0);
            }
        }
    }
}

/// A present key stays where it is under insertion of another value.
proof fn lemma_sp_get_some_key<V>(ps: Seq<(Seq<char>, V)>, key: Seq<char>, v: V)
    ensures
        sp_insert(ps, key, v).len() == if sp_get(ps, key) is Some {
            ps.len() as int
        } else {
            ps.len() as int + 1
        },
    decreases ps,
{
    if ps.len() == 0 {
    } else if ps[0].0 == key {
        assert(sp_insert(ps, key, v).len() == 1 + ps.drop_first().len());
    } else {
        lemma_sp_get_some_key(ps.drop_first(), key, v);
    }
}

/// A string-keyed mapping with pairwise distinct keys in insertion order.
#[derive(Debug, PartialEq)]
pub struct JsonMap<T> {
    pairs: Vec<(String, T)>,
}

impl<T: DeepView> JsonMap<T> {
    /// The key-value pairs, with keys as character sequences.
    pub closed spec fn spec_entries(&self) -> Seq<(Seq<char>, T)> {
        Seq::new(self.pairs@.len(), |k: int| (self.pairs@[k].0@, self.pairs@[k].1))
    }
}

impl<T: DeepView> View for JsonMap<T> {
    type V = Seq<(Seq<char>, T::V)>;

    open spec fn view(&self) -> Seq<(Seq<char>, T::V)> {
        Seq::new(
            self.spec_entries().len(),
            |k: int| (self.spec_entries()[k].0, self.spec_entries()[k].1.deep_view()),
        )
    }
}

impl<T: DeepView> DeepView for JsonMap<T> {
    type V = Seq<(Seq<char>, T::V)>;

    open spec fn deep_view(&self) -> Seq<(Seq<char>, T::V)> {
        self.view()
    }
}

impl<T: DeepView> JsonMap<T> {
    /// Distinct keys.
    pub open spec fn wf(&self) -> bool {
        keys_unique(self@)
    }

    /// The empty mapping.
    pub fn new() -> (r: JsonMap<T>)
        ensures
            r.spec_entries() == Seq::<(Seq<char>, T)>::empty(),
            r@ == Seq::<(Seq<char>, T::V)>::empty(),
            r.wf(),
    {
        let r = JsonMap { pairs: Vec::new() };
        proof {
            assert(r.spec_entries() =~= Seq::<(Seq<char>, T)>::empty());
            assert(r@ =~= Seq::<(Seq<char>, T::V)>::empty());
        }
        r
    }

    /// How many pairs the mapping holds.
    pub fn len(&self) -> (r: usize)
        ensures
            r == self@.len(),
    {
        self.pairs.len()
    }

    pub fn is_empty(&self) -> (r: bool)
        ensures
            r == (self@.len() == 0),
    {
        self.pairs.is_empty()
    }

    /// The pairs themselves, in insertion order.
    pub fn entries(&self) -> (r: &Vec<(String, T)>)
        ensures
            r@.len() == self.spec_entries().len(),
            forall|k: int|
                0 <= k < r@.len() ==> #[trigger] self.spec_entries()[k] == (r@[k].0@, r@[k].1),
    {
        &self.pairs
    }

    /// Inserts a value under a key; an existing key keeps its place and
    /// its earlier value is overwritten (last write wins).
    #[verifier::loop_isolation(false)]
    pub fn insert(&mut self, key: String, value: T)
        ensures
            final(self).spec_entries() == sp_insert(old(self).spec_entries(), key@, value),
            final(self)@ == sp_insert(old(self)@, key@, value.deep_view()),
            old(self).wf() ==> final(self).wf(),
    {
        let ghost old_entries = self.spec_entries();
        let ghost old_view = self@;
        let ghost old_pairs = self.pairs@;
        let ghost gkey = key@;
        let ghost gval = value;
        let mut j: usize = 0;
        while j < self.pairs.len()
            invariant
                0 <= j <= self.pairs@.len(),
                forall|q: int| 0 <= q < j ==> #[trigger] self.pairs@[q].0@ != gkey,
                self.pairs@ == old_pairs,
            decreases self.pairs@.len() - j,
        {
            if str_eq(self.pairs[j].0.as_str(), key.as_str()) {
                self.pairs.remove(j);
                self.pairs.insert(j, (key, value));
                proof {
                    old_pairs.remove_ensures(j as int);
                    old_pairs.remove(j as int).insert_ensures(j as int, (key, value));
                    assert(self.pairs@ =~= old_pairs.update(j as int, (key, value)));
                    assert(old_entries[j as int].0 == gkey);
                    assert forall|q: int| 0 <= q < j implies #[trigger] old_entries[q].0
                        != gkey by {
                        assert(old_pairs[q].0@ != gkey);
                    }
                    lemma_sp_insert_found(old_entries, gkey, gval, j as int);
                    assert(self.spec_entries() =~= old_entries.update(j as int, (gkey, gval)));
                    assert(old_view[j as int].0 == gkey);
                    assert forall|q: int| 0 <= q < j implies #[trigger] old_view[q].0 != gkey by {
                        assert(old_pairs[q].0@ != gkey);
                    }
                    lemma_sp_insert_found(old_view, gkey, gval.deep_view(), j as int);
                    assert(self@ =~= old_view.update(j as int, (gkey, gval.deep_view())));
                    lemma_sp_insert(old_view, gkey, gval.deep_view());
                }
                return ;
            }
            j = j + 1;
        }
        self.pairs.push((key, value));
        proof {
            assert(self.pairs@ =~= old_pairs.push((key, value)));
            assert forall|q: int| 0 <= q < old_entries.len() implies #[trigger] old_entries[q].0
                != gkey by {
                assert(old_pairs[q].0@ != gkey);
            }
            lemma_sp_insert_fresh(old_entries, gkey, gval);
            assert forall|q: int| 0 <= q < old_view.len() implies #[trigger] old_view[q].0
                != gkey by {
                assert(old_pairs[q].0@ != gkey);
            }
            lemma_sp_insert_fresh(old_view, gkey, gval.deep_view());
            assert(self.spec_entries() =~= old_entries.push((gkey, gval)));
            assert(self@ =~= old_view.push((gkey, gval.deep_view())));
            lemma_sp_insert(old_view, gkey, gval.deep_view());
        }
    }

    /// Looks a key up, returning the value stored under it.
    #[verifier::loop_isolation(false)]
    pub fn get(&self, key: &str) -> (r: Option<&T>)
        ensures
            match r {
                Some(t) => sp_get(self@, key@) == Some(t.deep_view()),
                None => sp_get(self@, key@) is None,
            },
    {
        let mut j: usize = 0;
        while j < self.pairs.len()
            invariant
                0 <= j <= self.pairs@.len(),
                forall|q: int| 0 <= q < j ==> #[trigger] self.pairs@[q].0@ != key@,
            decreases self.pairs@.len() - j,
        {
            if str_eq(self.pairs[j].0.as_str(), key) {
                proof {
                    lemma_sp_get_found(self@, key@, j as int);
                }
                return Some(&self.pairs[j].1);
            }
            j = j + 1;
        }
        proof {
            lemma_sp_get_missing(self@, key@);
        }
        None
    }
}

/// When the first occurrence of the key sits at position `j`, insertion
/// is an update in place.
pub(crate) proof fn lemma_sp_insert_found<V>(ps: Seq<(Seq<char>, V)>, key: Seq<char>, v: V, j: int)
    requires
        0 <= j < ps.len(),
        ps[j].0 == key,
        forall|q: int| 0 <= q < j ==> #[trigger] ps[q].0 != key,
    ensures
        sp_insert(ps, key, v) == ps.update(j, (key, v)),
    decreases ps,
{
    if j == 0 {
        assert(sp_insert(ps, key, v) =~= ps.update(0, (key, v)));
    } else {
        assert(ps.drop_first()[j - 1].0 == key);
        assert forall|q: int| 0 <= q < j - 1 implies #[trigger] ps.drop_first()[q].0 != key by {
            assert(ps[q + 1].0 != key);
        }
        lemma_sp_insert_found(ps.drop_first(), key, v, j - 1);
        assert(sp_insert(ps, key, v) =~= ps.update(j, (key, v)));
    }
}

/// When no pair carries the key, insertion appends.
pub(crate) proof fn lemma_sp_insert_fresh<V>(ps: Seq<(Seq<char>, V)>, key: Seq<char>, v: V)
    requires
        forall|q: int| 0 <= q < ps.len() ==> #[trigger] ps[q].0 != key,
    ensures
        sp_insert(ps, key, v) == ps.push((key, v)),
    decreases ps,
{
    if ps.len() == 0 {
        assert(sp_insert(ps, key, v) =~= ps.push((key, v)));
    } else {
        assert forall|q: int| 0 <= q < ps.drop_first().len() implies #[trigger] ps.drop_first()[q].0
            != key by {
            assert(ps[q + 1].0 != key);
        }
        lemma_sp_insert_fresh(ps.drop_first(), key, v);
        assert(sp_insert(ps, key, v) =~= ps.push((key, v)));
    }
}

/// When the first occurrence of the key sits at position `j`, lookup
/// returns the value there.
pub(crate) proof fn lemma_sp_get_found<V>(ps: Seq<(Seq<char>, V)>, key: Seq<char>, j: int)
    requires
        0 <= j < ps.len(),
        ps[j].0 == key,
        forall|q: int| 0 <= q < j ==> #[trigger] ps[q].0 != key,
    ensures
        sp_get(ps, key) == Some(ps[j].1),
    decreases ps,
{
    if j > 0 {
        assert(ps.drop_first()[j - 1].0 == key);
        assert forall|q: int| 0 <= q < j - 1 implies #[trigger] ps.drop_first()[q].0 != key by {
            assert(ps[q + 1].0 != key);
        }
        lemma_sp_get_found(ps.drop_first(), key, j - 1);
    }
}

/// When no pair carries the key, lookup fails.
pub(crate) proof fn lemma_sp_get_missing<V>(ps: Seq<(Seq<char>, V)>, key: Seq<char>)
    requires
        forall|q: int| 0 <= q < ps.len() ==> #[trigger] ps[q].0 != key,
    ensures
        sp_get(ps, key) is None,
    decreases ps,
{
    if ps.len() > 0 {
        assert forall|q: int| 0 <= q < ps.drop_first().len() implies #[trigger] ps.drop_first()[q].0
            != key by {
            assert(ps[q + 1].0 != key);
        }
        lemma_sp_get_missing(ps.drop_first(), key);
    }
}

} // verus!
