//! The flat argument map: argument path (a name, or a dotted chain for
//! nested object arguments) to raw value text, in order of first
//! appearance, with unique keys.  The model is a sequence of key/value
//! pairs of character sequences; inserting an existing key replaces its
//! value in place.

use vstd::prelude::*;

use crate::chars::str_eq;

verus! {

/// Model of an argument map (or of a raw run of parsed pairs, where keys
/// may still repeat): key/value pairs in order.
pub type SpecPairs = Seq<(Seq<char>, Seq<char>)>;

/// The value under the first occurrence of `k`.
pub open spec fn sp_get(m: SpecPairs, k: Seq<char>) -> Option<Seq<char>>
    decreases m.len(),
{
    if m.len() == 0 {
        None
    } else if m[0].0 == k {
        Some(m[0].1)
    } else {
        sp_get(m.drop_first(), k)
    }
}

/// Some pair of `m` has key `k`.
pub open spec fn sp_has_key(m: SpecPairs, k: Seq<char>) -> bool {
    sp_get(m, k) is Some
}

/// `m` with `k` bound to `v`: replaces the first occurrence in place, or
/// appends a new pair at the end.
pub open spec fn sp_put(m: SpecPairs, k: Seq<char>, v: Seq<char>) -> SpecPairs
    decreases m.len(),
{
    if m.len() == 0 {
        seq![(k, v)]
    } else if m[0].0 == k {
        seq![(k, v)] + m.drop_first()
    } else {
        seq![m[0]] + sp_put(m.drop_first(), k, v)
    }
}

/// `m` after binding every pair of `ps` in order.
pub open spec fn sp_put_all(m: SpecPairs, ps: SpecPairs) -> SpecPairs
    decreases ps.len(),
{
    if ps.len() == 0 {
        m
    } else {
        sp_put_all(sp_put(m, ps[0].0, ps[0].1), ps.drop_first())
    }
}

/// A raw run of pairs folded into a map of its own: what is left once
/// later values have replaced earlier ones under the same key.
pub open spec fn sp_collapse(ps: SpecPairs) -> SpecPairs {
    sp_put_all(Seq::empty(), ps)
}

/// `m` with the first occurrence of `k` removed.
pub open spec fn sp_remove(m: SpecPairs, k: Seq<char>) -> SpecPairs
    decreases m.len(),
{
    if m.len() == 0 {
        m
    } else if m[0].0 == k {
        m.drop_first()
    } else {
        seq![m[0]] + sp_remove(m.drop_first(), k)
    }
}

/// Keys are unique.
pub open spec fn sp_wf(m: SpecPairs) -> bool {
    forall|i: int, j: int| 0 <= i < j < m.len() ==> (#[trigger] m[i]).0 != (#[trigger] m[j]).0
}

pub proof fn lemma_put_get(m: SpecPairs, k: Seq<char>, v: Seq<char>, k2: Seq<char>)
    ensures
        sp_get(sp_put(m, k, v), k2) == if k2 == k {
            Some(v)
        } else {
            sp_get(m, k2)
        },
    decreases m.len(),
{
    if m.len() == 0 {
        let s = seq![(k, v)];
        assert(sp_put(m, k, v) == s);
        assert(s[0] == (k, v));
        assert(s.drop_first() =~= Seq::<(Seq<char>, Seq<char>)>::empty());
    } else if m[0].0 == k {
        assert(sp_put(m, k, v) == seq![(k, v)] + m.drop_first());
        assert((seq![(k, v)] + m.drop_first())[0] == (k, v));
        assert((seq![(k, v)] + m.drop_first()).drop_first() =~= m.drop_first());
    } else {
        lemma_put_get(m.drop_first(), k, v, k2);
        assert(sp_put(m, k, v) == seq![m[0]] + sp_put(m.drop_first(), k, v));
        assert((seq![m[0]] + sp_put(m.drop_first(), k, v))[0] == m[0]);
        assert((seq![m[0]] + sp_put(m.drop_first(), k, v)).drop_first() =~= sp_put(
            m.drop_first(),
            k,
            v,
        ));
    }
    assert(sp_get(sp_put(m, k, v), k2) =~~= (if k2 == k {
        Some(v)
    } else {
        sp_get(m, k2)
    })) by {
        reveal_with_fuel(sp_get, 3);
    }
}

pub proof fn lemma_put_wf(m: SpecPairs, k: Seq<char>, v: Seq<char>)
    requires
        sp_wf(m),
    ensures
        sp_wf(sp_put(m, k, v)),
    decreases m.len(),
{
    if m.len() == 0 {
    } else if m[0].0 == k {
        let r = seq![(k, v)] + m.drop_first();
        assert forall|i: int, j: int| 0 <= i < j < r.len() implies (#[trigger] r[i]).0 != (
        #[trigger] r[j]).0 by {
            assert(m.drop_first()[j - 1] == m[j]);
            if i > 0 {
                assert(m.drop_first()[i - 1] == m[i]);
            }
        }
    } else {
        assert(sp_wf(m.drop_first())) by {
            assert(forall|i: int, j: int|
                0 <= i < j < m.drop_first().len() ==> (#[trigger] m.drop_first()[i]).0 != (
                #[trigger] m.drop_first()[j]).0);
        }
        lemma_put_wf(m.drop_first(), k, v);
        lemma_put_get(m.drop_first(), k, v, m[0].0);
        let r = seq![m[0]] + sp_put(m.drop_first(), k, v);
        let inner = sp_put(m.drop_first(), k, v);
        assert(sp_get(m.drop_first(), m[0].0) is None) by {
            lemma_get_absent(m.drop_first(), m[0].0);
        }
        assert forall|i: int, j: int| 0 <= i < j < r.len() implies (#[trigger] r[i]).0 != (
        #[trigger] r[j]).0 by {
            if i == 0 {
                assert(r[j] == inner[j - 1]);
                lemma_get_some_key(inner, j - 1);
            } else {
                assert(r[i] == inner[i - 1]);
                assert(r[j] == inner[j - 1]);
            }
        }
    }
}

/// If every key of `m` differs from `k`, looking `k` up fails.
pub proof fn lemma_get_absent(m: SpecPairs, k: Seq<char>)
    requires
        forall|i: int| 0 <= i < m.len() ==> (#[trigger] m[i]).0 != k,
    ensures
        sp_get(m, k) is None,
    decreases m.len(),
{
    if m.len() == 0 {
    } else {
        assert(forall|i: int|
            0 <= i < m.drop_first().len() ==> #[trigger] m.drop_first()[i] == m[i + 1]);
        lemma_get_absent(m.drop_first(), k);
    }
}

/// A key present at some index is found by `sp_get`.
pub proof fn lemma_get_some_key(m: SpecPairs, i: int)
    requires
        0 <= i < m.len(),
    ensures
        sp_has_key(m, m[i].0),
    decreases m.len(),
{
    if i == 0 {
    } else {
        lemma_get_some_key(m.drop_first(), i - 1);
        assert(m.drop_first()[i - 1] == m[i]);
    }
}

/// Binding the pairs of `ps ++ qs` is binding `ps` and then `qs`.
pub proof fn lemma_put_all_append(m: SpecPairs, ps: SpecPairs, qs: SpecPairs)
    ensures
        sp_put_all(m, ps + qs) == sp_put_all(sp_put_all(m, ps), qs),
    decreases ps.len(),
{
    if ps.len() == 0 {
        assert(ps + qs =~= qs);
    } else {
        assert((ps + qs)[0] == ps[0]);
        assert((ps + qs).drop_first() =~= ps.drop_first() + qs);
        lemma_put_all_append(sp_put(m, ps[0].0, ps[0].1), ps.drop_first(), qs);
    }
}

/// The total text held in the values of `ps`, plus one per pair: the
/// measure by which recursive flattening of `where` arguments terminates.
pub open spec fn pairs_weight(ps: SpecPairs) -> nat
    decreases ps.len(),
{
    if ps.len() == 0 {
        0
    } else {
        ps[0].1.len() + 1 + pairs_weight(ps.drop_first())
    }
}

pub proof fn lemma_weight_concat(a: SpecPairs, b: SpecPairs)
    ensures
        pairs_weight(a + b) == pairs_weight(a) + pairs_weight(b),
    decreases a.len(),
{
    if a.len() == 0 {
        assert(a + b =~= b);
    } else {
        assert((a + b)[0] == a[0]);
        assert((a + b).drop_first() =~= a.drop_first() + b);
        lemma_weight_concat(a.drop_first(), b);
    }
}

pub proof fn lemma_put_weight(m: SpecPairs, k: Seq<char>, v: Seq<char>)
    ensures
        pairs_weight(sp_put(m, k, v)) <= pairs_weight(m) + v.len() + 1,
    decreases m.len(),
{
    if m.len() == 0 {
        assert(seq![(k, v)].drop_first() =~= Seq::<(Seq<char>, Seq<char>)>::empty());
        assert(pairs_weight(Seq::<(Seq<char>, Seq<char>)>::empty()) == 0);
        assert(seq![(k, v)][0] == (k, v));
    } else if m[0].0 == k {
        assert((seq![(k, v)] + m.drop_first())[0] == (k, v));
        assert((seq![(k, v)] + m.drop_first()).drop_first() =~= m.drop_first());
    } else {
        lemma_put_weight(m.drop_first(), k, v);
        assert((seq![m[0]] + sp_put(m.drop_first(), k, v))[0] == m[0]);
        assert((seq![m[0]] + sp_put(m.drop_first(), k, v)).drop_first() =~= sp_put(
            m.drop_first(),
            k,
            v,
        ));
    }
}

pub proof fn lemma_put_all_weight(m: SpecPairs, ps: SpecPairs)
    ensures
        pairs_weight(sp_put_all(m, ps)) <= pairs_weight(m) + pairs_weight(ps),
    decreases ps.len(),
{
    if ps.len() == 0 {
    } else {
        lemma_put_weight(m, ps[0].0, ps[0].1);
        lemma_put_all_weight(sp_put(m, ps[0].0, ps[0].1), ps.drop_first());
    }
}

/// Collapsing a raw run never increases its weight.
pub proof fn lemma_collapse_weight(ps: SpecPairs)
    ensures
        pairs_weight(sp_collapse(ps)) <= pairs_weight(ps),
{
    lemma_put_all_weight(Seq::empty(), ps);
}

/// Every key of `ps` extended with the dotted prefix `k`.
pub open spec fn prefix_keys(k: Seq<char>, ps: SpecPairs) -> SpecPairs {
    Seq::new(ps.len(), |i: int| (k + "."@ + ps[i].0, ps[i].1))
}

pub proof fn lemma_prefix_weight(k: Seq<char>, ps: SpecPairs)
    ensures
        pairs_weight(prefix_keys(k, ps)) == pairs_weight(ps),
    decreases ps.len(),
{
    if ps.len() == 0 {
        assert(prefix_keys(k, ps) =~= Seq::<(Seq<char>, Seq<char>)>::empty());
    } else {
        lemma_prefix_weight(k, ps.drop_first());
        assert(prefix_keys(k, ps).drop_first() =~= prefix_keys(k, ps.drop_first()));
    }
}

/// Binding one more pair on the right of a run.
pub proof fn lemma_put_all_snoc(m: SpecPairs, ps: SpecPairs, k: Seq<char>, v: Seq<char>)
    ensures
        sp_put_all(m, ps + seq![(k, v)]) == sp_put(sp_put_all(m, ps), k, v),
{
    lemma_put_all_append(m, ps, seq![(k, v)]);
    assert(seq![(k, v)].drop_first() =~= Seq::<(Seq<char>, Seq<char>)>::empty());
    assert(seq![(k, v)][0] == (k, v));
    assert(sp_put_all(sp_put_all(m, ps), seq![(k, v)]) == sp_put(sp_put_all(m, ps), k, v)) by {
        reveal_with_fuel(sp_put_all, 2);
    }
}

/// The flat argument map: insertion order preserved, keys unique.
pub struct ArgMap {
    pub entries: Vec<(String, String)>,
}

impl View for ArgMap {
    type V = SpecPairs;

    open spec fn view(&self) -> SpecPairs {
        Seq::new(self.entries@.len(), |i: int| (self.entries@[i].0@, self.entries@[i].1@))
    }
}

impl ArgMap {
    /// Keys are unique.
    pub open spec fn wf(&self) -> bool {
        sp_wf(self@)
    }

    pub fn new() -> (r: ArgMap)
        ensures
            r@ == Seq::<(Seq<char>, Seq<char>)>::empty(),
            r.wf(),
    {
        let r = ArgMap { entries: Vec::new() };
        proof {
            assert(r@ =~= Seq::<(Seq<char>, Seq<char>)>::empty());
        }
        r
    }

    pub fn len(&self) -> (r: usize)
        ensures
            r == self@.len(),
    {
        self.entries.len()
    }

    /// The index of the first pair whose key is `k`, if any.
    fn index_of(&self, k: &str) -> (r: Option<usize>)
        ensures
            match r {
                Some(i) => {
                    &&& i < self@.len()
                    &&& self@[i as int].0 == k@
                    &&& forall|j: int| 0 <= j < i ==> (#[trigger] self@[j]).0 != k@
                },
                None => forall|j: int| 0 <= j < self@.len() ==> (#[trigger] self@[j]).0 != k@,
            },
    {
        let n = self.entries.len();
        let mut i: usize = 0;
        while i < n
            invariant
                0 <= i <= n,
                n == self@.len(),
                n == self.entries@.len(),
                forall|j: int| 0 <= j < i ==> (#[trigger] self@[j]).0 != k@,
            decreases n - i,
        {
            if str_eq(self.entries[i].0.as_str(), k) {
                return Some(i);
            }
            i += 1;
        }
        None
    }

    /// The value stored under `k`, cloned out, if any.
    pub fn get_value(&self, k: &str) -> (r: Option<String>)
        ensures
            match r {
                Some(v) => sp_get(self@, k@) == Some(v@),
                None => sp_get(self@, k@) is None,
            },
    {
        match self.index_of(k) {
            Some(i) => {
                proof {
                    lemma_get_at_index(self@, k@, i as int);
                }
                Some(self.entries[i].1.clone())
            },
            None => {
                proof {
                    lemma_get_absent(self@, k@);
                }
                None
            },
        }
    }

    /// Whether any pair has key `k`.
    pub fn contains_key(&self, k: &str) -> (r: bool)
        ensures
            r == sp_has_key(self@, k@),
    {
        self.get_value(k).is_some()
    }

    /// Bind `k` to `v`: replace the first occurrence in place, or append.
    pub fn insert(&mut self, k: String, v: String)
        ensures
            final(self)@ == sp_put(old(self)@, k@, v@),
            old(self).wf() ==> final(self).wf(),
    {
        let ghost m0 = self@;
        match self.index_of(k.as_str()) {
            Some(i) => {
                let _ = self.entries.remove(i);
                self.entries.insert(i, (k, v));
                proof {
                    lemma_put_at_index(m0, k@, v@, i as int);
                    assert(self@ =~= m0.update(i as int, (k@, v@)));
                }
            },
            None => {
                self.entries.push((k, v));
                proof {
                    lemma_put_append(m0, k@, v@);
                    assert(self@ =~= m0 + seq![(k@, v@)]);
                }
            },
        }
        proof {
            if sp_wf(m0) {
                lemma_put_wf(m0, k@, v@);
            }
        }
    }

    /// Drop the first occurrence of `k`, if any.
    pub fn remove_key(&mut self, k: &str)
        ensures
            final(self)@ == sp_remove(old(self)@, k@),
            old(self).wf() ==> final(self).wf(),
    {
        let ghost m0 = self@;
        match self.index_of(k) {
            Some(i) => {
                let _ = self.entries.remove(i);
                proof {
                    lemma_remove_at_index(m0, k@, i as int);
                    assert(self@ =~= m0.subrange(0, i as int) + m0.subrange(
                        i + 1,
                        m0.len() as int,
                    ));
                }
            },
            None => {
                proof {
                    lemma_remove_absent(m0, k@);
                }
            },
        }
        proof {
            if sp_wf(m0) {
                lemma_remove_wf(m0, k@);
            }
        }
    }

    /// An element-wise copy.
    pub fn duplicate(&self) -> (r: ArgMap)
        ensures
            r@ == self@,
            self.wf() ==> r.wf(),
    {
        let n = self.entries.len();
        let mut entries: Vec<(String, String)> = Vec::new();
        let mut i: usize = 0;
        while i < n
            invariant
                0 <= i <= n,
                n == self.entries@.len(),
                entries@.len() == i,
                forall|k: int|
                    0 <= k < i ==> (#[trigger] entries@[k]).0@ == self.entries@[k].0@
                        && entries@[k].1@ == self.entries@[k].1@,
            decreases n - i,
        {
            let k = self.entries[i].0.clone();
            let v = self.entries[i].1.clone();
            entries.push((k, v));
            i += 1;
        }
        let r = ArgMap { entries };
        proof {
            assert(r@ =~= self@);
        }
        r
    }

    /// Bind every pair of `other`, in order.
    pub fn insert_all(&mut self, other: &ArgMap)
        ensures
            final(self)@ == sp_put_all(old(self)@, other@),
            old(self).wf() ==> final(self).wf(),
    {
        let ghost m0 = self@;
        let ghost wf0 = self.wf();
        let n = other.entries.len();
        let mut j: usize = 0;
        while j < n
            invariant
                0 <= j <= n,
                n == other@.len(),
                n == other.entries@.len(),
                self@ == sp_put_all(m0, other@.take(j as int)),
                wf0 ==> self.wf(),
            decreases n - j,
        {
            let k = other.entries[j].0.clone();
            let v = other.entries[j].1.clone();
            proof {
                assert(other@.take(j + 1) =~= other@.take(j as int) + seq![other@[j as int]]);
                lemma_put_all_snoc(m0, other@.take(j as int), other@[j as int].0, other@[
                    j as int].1);
            }
            self.insert(k, v);
            j += 1;
        }
        proof {
            assert(other@.take(n as int) =~= other@);
        }
    }

    /// Bind every pair of `other` under the dotted path `prefix.<key>`,
    /// in order.
    pub fn insert_all_prefixed(&mut self, prefix: &str, other: &ArgMap)
        ensures
            final(self)@ == sp_put_all(old(self)@, prefix_keys(prefix@, other@)),
            old(self).wf() ==> final(self).wf(),
    {
        let ghost m0 = self@;
        let ghost wf0 = self.wf();
        let ghost pk = prefix_keys(prefix@, other@);
        let n = other.entries.len();
        let mut j: usize = 0;
        while j < n
            invariant
                0 <= j <= n,
                n == other@.len(),
                n == other.entries@.len(),
                pk == prefix_keys(prefix@, other@),
                pk.len() == n,
                self@ == sp_put_all(m0, pk.take(j as int)),
                wf0 ==> self.wf(),
            decreases n - j,
        {
            let mut fk = String::from_str(prefix);
            fk.append(".");
            fk.append(other.entries[j].0.as_str());
            let v = other.entries[j].1.clone();
            proof {
                assert(fk@ =~= prefix@ + "."@ + other@[j as int].0);
                assert(pk.take(j + 1) =~= pk.take(j as int) + seq![pk[j as int]]);
                lemma_put_all_snoc(m0, pk.take(j as int), pk[j as int].0, pk[j as int].1);
            }
            self.insert(fk, v);
            j += 1;
        }
        proof {
            assert(pk.take(n as int) =~= pk);
        }
    }
}

/// `sp_get` returns the value at the first index holding the key.
pub proof fn lemma_get_at_index(m: SpecPairs, k: Seq<char>, i: int)
    requires
        0 <= i < m.len(),
        m[i].0 == k,
        forall|j: int| 0 <= j < i ==> (#[trigger] m[j]).0 != k,
    ensures
        sp_get(m, k) == Some(m[i].1),
    decreases i,
{
    if i == 0 {
    } else {
        assert(m.drop_first()[i - 1] == m[i]);
        assert(forall|j: int|
            0 <= j < i - 1 ==> #[trigger] m.drop_first()[j] == m[j + 1]);
        lemma_get_at_index(m.drop_first(), k, i - 1);
    }
}

/// `sp_put` updates in place at the first index holding the key.
pub proof fn lemma_put_at_index(m: SpecPairs, k: Seq<char>, v: Seq<char>, i: int)
    requires
        0 <= i < m.len(),
        m[i].0 == k,
        forall|j: int| 0 <= j < i ==> (#[trigger] m[j]).0 != k,
    ensures
        sp_put(m, k, v) == m.update(i, (k, v)),
    decreases i,
{
    if i == 0 {
        assert(sp_put(m, k, v) == seq![(k, v)] + m.drop_first());
        assert(seq![(k, v)] + m.drop_first() =~= m.update(0, (k, v)));
    } else {
        assert(m.drop_first()[i - 1] == m[i]);
        assert(forall|j: int|
            0 <= j < i - 1 ==> #[trigger] m.drop_first()[j] == m[j + 1]);
        lemma_put_at_index(m.drop_first(), k, v, i - 1);
        assert(seq![m[0]] + m.drop_first().update(i - 1, (k, v)) =~= m.update(i, (k, v)));
    }
}

/// `sp_put` appends when the key is absent.
pub proof fn lemma_put_append(m: SpecPairs, k: Seq<char>, v: Seq<char>)
    requires
        forall|j: int| 0 <= j < m.len() ==> (#[trigger] m[j]).0 != k,
    ensures
        sp_put(m, k, v) == m + seq![(k, v)],
    decreases m.len(),
{
    if m.len() == 0 {
        assert(sp_put(m, k, v) =~= m + seq![(k, v)]);
    } else {
        assert(forall|j: int|
            0 <= j < m.drop_first().len() ==> #[trigger] m.drop_first()[j] == m[j + 1]);
        lemma_put_append(m.drop_first(), k, v);
        assert(seq![m[0]] + (m.drop_first() + seq![(k, v)]) =~= m + seq![(k, v)]);
    }
}

/// `sp_remove` deletes exactly the first index holding the key.
pub proof fn lemma_remove_at_index(m: SpecPairs, k: Seq<char>, i: int)
    requires
        0 <= i < m.len(),
        m[i].0 == k,
        forall|j: int| 0 <= j < i ==> (#[trigger] m[j]).0 != k,
    ensures
        sp_remove(m, k) == m.subrange(0, i) + m.subrange(i + 1, m.len() as int),
    decreases i,
{
    if i == 0 {
        assert(m.drop_first() =~= m.subrange(0, 0) + m.subrange(1, m.len() as int));
    } else {
        assert(m.drop_first()[i - 1] == m[i]);
        assert(forall|j: int|
            0 <= j < i - 1 ==> #[trigger] m.drop_first()[j] == m[j + 1]);
        lemma_remove_at_index(m.drop_first(), k, i - 1);
        assert(seq![m[0]] + (m.drop_first().subrange(0, i - 1) + m.drop_first().subrange(
            i,
            m.drop_first().len() as int,
        )) =~= m.subrange(0, i) + m.subrange(i + 1, m.len() as int));
    }
}

/// `sp_remove` of an absent key changes nothing.
pub proof fn lemma_remove_absent(m: SpecPairs, k: Seq<char>)
    requires
        forall|j: int| 0 <= j < m.len() ==> (#[trigger] m[j]).0 != k,
    ensures
        sp_remove(m, k) == m,
    decreases m.len(),
{
    if m.len() == 0 {
    } else {
        assert(forall|j: int|
            0 <= j < m.drop_first().len() ==> #[trigger] m.drop_first()[j] == m[j + 1]);
        lemma_remove_absent(m.drop_first(), k);
        assert(seq![m[0]] + m.drop_first() =~= m);
    }
}

/// Removing a key keeps the remaining keys unique.
pub proof fn lemma_remove_wf(m: SpecPairs, k: Seq<char>)
    requires
        sp_wf(m),
    ensures
        sp_wf(sp_remove(m, k)),
    decreases m.len(),
{
    if m.len() == 0 {
    } else if m[0].0 == k {
        assert(forall|j: int|
            0 <= j < m.drop_first().len() ==> #[trigger] m.drop_first()[j] == m[j + 1]);
    } else {
        assert(forall|j: int|
            0 <= j < m.drop_first().len() ==> #[trigger] m.drop_first()[j] == m[j + 1]);
        lemma_remove_wf(m.drop_first(), k);
        let inner = sp_remove(m.drop_first(), k);
        let r = seq![m[0]] + inner;
        assert forall|i: int, j: int| 0 <= i < j < r.len() implies (#[trigger] r[i]).0 != (
        #[trigger] r[j]).0 by {
            lemma_remove_keys(m.drop_first(), k, if i == 0 {
                j - 1
            } else {
                j - 1
            });
            if i > 0 {
                lemma_remove_keys(m.drop_first(), k, i - 1);
            }
        }
    }
}

/// Every pair of `sp_remove(m, k)` is a pair of `m`.
pub proof fn lemma_remove_keys(m: SpecPairs, k: Seq<char>, i: int)
    requires
        0 <= i < sp_remove(m, k).len(),
    ensures
        exists|j: int| 0 <= j < m.len() && m[j] == sp_remove(m, k)[i],
    decreases m.len(),
{
    if m.len() == 0 {
    } else if m[0].0 == k {
        assert(m.drop_first()[i] == m[i + 1]);
    } else {
        if i == 0 {
        } else {
            lemma_remove_keys(m.drop_first(), k, i - 1);
            let j = choose|j: int|
                0 <= j < m.drop_first().len() && m.drop_first()[j] == sp_remove(
                    m.drop_first(),
                    k,
                )[i - 1];
            assert(m[j + 1] == sp_remove(m, k)[i]);
        }
    }
}

} // verus!
