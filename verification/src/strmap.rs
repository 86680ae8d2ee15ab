//! An ordered string-keyed map with last-wins insertion, standing in for a
//! hash map: keys are unique, insertion order is kept, and a later insert of
//! an existing key overwrites its value in place.
use vstd::prelude::*;

verus! {

/// The first position at or after `i` whose key is `k`.
pub open spec fn index_of_key_from(
    ps: Seq<(Seq<char>, Seq<char>)>,
    k: Seq<char>,
    i: int,
) -> Option<int>
    decreases ps.len() - i,
{
    if i < 0 || i >= ps.len() {
        None
    } else if ps[i].0 == k {
        Some(i)
    } else {
        index_of_key_from(ps, k, i + 1)
    }
}

/// The value bound to `k`, looking from position `i` on.
pub open spec fn assoc_get_from(
    ps: Seq<(Seq<char>, Seq<char>)>,
    k: Seq<char>,
    i: int,
) -> Option<Seq<char>>
    decreases ps.len() - i,
{
    if i < 0 || i >= ps.len() {
        None
    } else if ps[i].0 == k {
        Some(ps[i].1)
    } else {
        assoc_get_from(ps, k, i + 1)
    }
}

/// The value bound to key `k`.
pub open spec fn assoc_get(ps: Seq<(Seq<char>, Seq<char>)>, k: Seq<char>) -> Option<Seq<char>> {
    assoc_get_from(ps, k, 0)
}

/// Inserting with last-wins semantics: an existing binding is overwritten in
/// place, a new key is appended.
pub open spec fn upsert(ps: Seq<(Seq<char>, Seq<char>)>, k: Seq<char>, v: Seq<char>) -> Seq<
    (Seq<char>, Seq<char>),
> {
    match index_of_key_from(ps, k, 0) {
        Some(j) => ps.update(j, (k, v)),
        None => ps.push((k, v)),
    }
}

/// Every binding of `items` folded into `acc` in order, later entries
/// overwriting earlier ones.
pub open spec fn upsert_all(
    acc: Seq<(Seq<char>, Seq<char>)>,
    items: Seq<(Seq<char>, Seq<char>)>,
) -> Seq<(Seq<char>, Seq<char>)>
    decreases items.len(),
{
    if items.len() == 0 {
        acc
    } else {
        upsert_all(upsert(acc, items[0].0, items[0].1), items.drop_first())
    }
}

/// A string-keyed map as an ordered list of bindings with unique keys.
pub struct StrMap {
    pairs: Vec<(String, String)>,
}

impl StrMap {
    /// The bindings, keys and values as character sequences, in insertion order.
    pub closed spec fn view_pairs(&self) -> Seq<(Seq<char>, Seq<char>)> {
        self.pairs.deep_view()
    }

    /// Keys are pairwise distinct.
    pub closed spec fn wf(&self) -> bool {
        forall|j: int, k: int|
            0 <= j < k < self.view_pairs().len() ==> self.view_pairs()[j].0
                != self.view_pairs()[k].0
    }

    pub fn new() -> (r: StrMap)
        ensures
            r.view_pairs() =~= Seq::<(Seq<char>, Seq<char>)>::empty(),
            r.wf(),
    {
        StrMap { pairs: Vec::new() }
    }

    pub fn len(&self) -> (n: usize)
        ensures
            n == self.view_pairs().len(),
    {
        self.pairs.len()
    }

    /// The binding at position `i` in insertion order.
    pub fn pair_at(&self, i: usize) -> (r: (&String, &String))
        requires
            i < self.view_pairs().len(),
        ensures
            r.0@ == self.view_pairs()[i as int].0,
            r.1@ == self.view_pairs()[i as int].1,
    {
        (&self.pairs[i].0, &self.pairs[i].1)
    }

    /// The value bound to `k`, or None when `k` is not a key.
    pub fn get(&self, k: &str) -> (r: Option<&String>)
        ensures
            match r {
                Some(v) => assoc_get(self.view_pairs(), k@) == Some(v@),
                None => assoc_get(self.view_pairs(), k@) is None,
            },
    {
        let ks: String = k.to_owned();
        let n = self.pairs.len();
        let mut j: usize = 0;
        while j < n
            invariant
                n == self.view_pairs().len(),
                j <= n,
                ks@ == k@,
                assoc_get(self.view_pairs(), k@) == assoc_get_from(self.view_pairs(), k@, j as int),
            decreases n - j,
        {
            if self.pairs[j].0 == ks {
                assert(self.view_pairs()[j as int].0 == k@);
                return Some(&self.pairs[j].1);
            }
            assert(self.view_pairs()[j as int].0 != k@);
            j += 1;
        }
        None
    }

    /// Binds `k` to `v`: overwrites in place when `k` is already a key, and
    /// appends otherwise.
    pub fn insert(&mut self, k: String, v: String)
        requires
            old(self).wf(),
        ensures
            final(self).wf(),
            final(self).view_pairs() == upsert(old(self).view_pairs(), k@, v@),
    {
        let ghost ps0 = self.view_pairs();
        let ghost kv = k@;
        let ghost vv = v@;
        let n = self.pairs.len();
        let mut j: usize = 0;
        while j < n
            invariant
                ps0 == old(self).view_pairs(),
                self.view_pairs() == ps0,
                self.wf(),
                n == ps0.len(),
                j <= n,
                kv == k@,
                vv == v@,
                index_of_key_from(ps0, kv, 0) == index_of_key_from(ps0, kv, j as int),
                forall|jj: int| 0 <= jj < j ==> ps0[jj].0 != kv,
            decreases n - j,
        {
            if self.pairs[j].0 == k {
                assert(ps0[j as int].0 == kv);
                assert(index_of_key_from(ps0, kv, 0) == Some(j as int));
                self.pairs[j] = (k, v);
                proof {
                    assert(self.view_pairs() =~= ps0.update(j as int, (kv, vv)));
                    assert(self.view_pairs() == upsert(ps0, kv, vv));
                    assert forall|a: int, b: int|
                        0 <= a < b < self.view_pairs().len() implies self.view_pairs()[a].0
                        != self.view_pairs()[b].0 by {
                        assert(ps0[a].0 != ps0[b].0);
                        if a == j {
                            assert(self.view_pairs()[a].0 == kv);
                            assert(ps0[j as int].0 == kv);
                        }
                        if b == j {
                            assert(self.view_pairs()[b].0 == kv);
                            assert(ps0[j as int].0 == kv);
                        }
                    }
                    assert(self.wf());
                }
                return ;
            }
            assert(ps0[j as int].0 != kv);
            j += 1;
        }
        assert(index_of_key_from(ps0, kv, 0) is None);
        self.pairs.push((k, v));
        proof {
            assert(self.view_pairs() =~= ps0.push((kv, vv)));
            assert(self.view_pairs() == upsert(ps0, kv, vv));
            assert forall|a: int, b: int|
                0 <= a < b < self.view_pairs().len() implies self.view_pairs()[a].0
                != self.view_pairs()[b].0 by {
                if b == ps0.len() {
                    assert(self.view_pairs()[b].0 == kv);
                    assert(ps0[a].0 != kv);
                } else {
                    assert(ps0[a].0 != ps0[b].0);
                }
            }
            assert(self.wf());
        }
    }
}

} // verus!

verus! {

proof fn lemma_index_none_pointwise(ps: Seq<(Seq<char>, Seq<char>)>, k: Seq<char>, i: int)
    requires
        0 <= i,
        index_of_key_from(ps, k, i) is None,
    ensures
        forall|j: int| i <= j < ps.len() ==> ps[j].0 != k,
    decreases ps.len() - i,
{
    if i < ps.len() {
        lemma_index_none_pointwise(ps, k, i + 1);
    }
}

proof fn lemma_index_some_props(ps: Seq<(Seq<char>, Seq<char>)>, k: Seq<char>, i: int, j: int)
    requires
        0 <= i,
        index_of_key_from(ps, k, i) == Some(j),
    ensures
        i <= j < ps.len(),
        ps[j].0 == k,
        forall|jj: int| i <= jj < j ==> ps[jj].0 != k,
    decreases ps.len() - i,
{
    if i < ps.len() && ps[i].0 != k {
        lemma_index_some_props(ps, k, i + 1, j);
    }
}

proof fn lemma_get_skips_other_keys(ps: Seq<(Seq<char>, Seq<char>)>, k: Seq<char>, i: int, j: int)
    requires
        0 <= i <= j <= ps.len(),
        forall|jj: int| i <= jj < j ==> ps[jj].0 != k,
    ensures
        assoc_get_from(ps, k, i) == assoc_get_from(ps, k, j),
    decreases j - i,
{
    if i < j {
        lemma_get_skips_other_keys(ps, k, i + 1, j);
    }
}

proof fn lemma_get_push(ps: Seq<(Seq<char>, Seq<char>)>, p: (Seq<char>, Seq<char>), q: Seq<char>, i: int)
    requires
        0 <= i,
    ensures
        p.0 != q ==> assoc_get_from(ps.push(p), q, i) == assoc_get_from(ps, q, i),
        (i <= ps.len() && p.0 == q && (forall|j: int| i <= j < ps.len() ==> ps[j].0 != q))
            ==> assoc_get_from(ps.push(p), q, i) == Some(p.1),
    decreases ps.len() + 1 - i,
{
    if i <= ps.len() {
        lemma_get_push(ps, p, q, i + 1);
        if i < ps.len() {
            assert(ps.push(p)[i] == ps[i]);
        } else {
            assert(ps.push(p)[i] == p);
        }
    }
}

proof fn lemma_get_update(
    ps: Seq<(Seq<char>, Seq<char>)>,
    j: int,
    p: (Seq<char>, Seq<char>),
    q: Seq<char>,
    i: int,
)
    requires
        0 <= i,
        0 <= j < ps.len(),
        ps[j].0 == p.0,
        p.0 != q,
    ensures
        assoc_get_from(ps.update(j, p), q, i) == assoc_get_from(ps, q, i),
    decreases ps.len() - i,
{
    if i < ps.len() {
        lemma_get_update(ps, j, p, q, i + 1);
        if i != j {
            assert(ps.update(j, p)[i] == ps[i]);
        }
    }
}

/// The law of the insertion fold: a later binding of a key wins. After
/// `upsert(ps, k, v)` the key `k` is bound to `v`, and every other key keeps
/// the value it had.
pub proof fn lemma_upsert_get(
    ps: Seq<(Seq<char>, Seq<char>)>,
    k: Seq<char>,
    v: Seq<char>,
    q: Seq<char>,
)
    ensures
        assoc_get(upsert(ps, k, v), k) == Some(v),
        q != k ==> assoc_get(upsert(ps, k, v), q) == assoc_get(ps, q),
{
    match index_of_key_from(ps, k, 0) {
        None => {
            lemma_index_none_pointwise(ps, k, 0);
            lemma_get_push(ps, (k, v), k, 0);
            if q != k {
                lemma_get_push(ps, (k, v), q, 0);
            }
        },
        Some(j) => {
            lemma_index_some_props(ps, k, 0, j);
            let updated = ps.update(j, (k, v));
            assert forall|jj: int| 0 <= jj < j implies updated[jj].0 != k by {
                assert(updated[jj] == ps[jj]);
            }
            lemma_get_skips_other_keys(updated, k, 0, j);
            assert(assoc_get_from(updated, k, j) == Some(v));
            if q != k {
                lemma_get_update(ps, j, (k, v), q, 0);
            }
        },
    }
}

} // verus!
