//! A multiset of keys that are compared by their views: how many times each key was
//! added and not yet removed.
use crate::dedup_store::{copy_words, eq_words};
use vstd::prelude::*;

verus! {

/// A key that can be compared and copied by its view.
pub trait Keyed: View + Sized {
    /// Whether the two keys have the same view.
    fn same(&self, other: &Self) -> (r: bool)
        ensures
            r == (self@ == other@),
    ;

    /// A copy with the same view.
    fn dup(&self) -> (r: Self)
        ensures
            r@ == self@,
    ;
}

impl Keyed for u64 {
    fn same(&self, other: &Self) -> (r: bool) {
        *self == *other
    }

    fn dup(&self) -> (r: Self) {
        *self
    }
}

impl Keyed for (u64, u64) {
    fn same(&self, other: &Self) -> (r: bool) {
        self.0 == other.0 && self.1 == other.1
    }

    fn dup(&self) -> (r: Self) {
        (self.0, self.1)
    }
}

impl Keyed for Vec<u64> {
    fn same(&self, other: &Self) -> (r: bool) {
        eq_words(self, other)
    }

    fn dup(&self) -> (r: Self) {
        copy_words(self)
    }
}

impl Keyed for String {
    fn same(&self, other: &Self) -> (r: bool) {
        *self == *other
    }

    fn dup(&self) -> (r: Self) {
        self.clone()
    }
}

/// Keys with their counts; no two keys share a view and every count is positive.
pub struct CountTable<K> {
    keys: Vec<K>,
    counts: Vec<usize>,
}

/// Index of some key of `keys` whose view is `k`.
pub open spec fn key_index<K: View>(keys: Seq<K>, k: K::V) -> int {
    choose|i: int| 0 <= i < keys.len() && keys[i]@ == k
}

/// The counts after `k` is added once more (saturating at `usize::MAX`).
pub open spec fn count_added<V>(m: Map<V, nat>, k: V) -> Map<V, nat> {
    if m.contains_key(k) {
        m.insert(
            k,
            if m[k] < usize::MAX {
                m[k] + 1
            } else {
                m[k]
            },
        )
    } else {
        m.insert(k, 1)
    }
}

/// The counts after `k` is removed once: a count of 1 drops the key.
pub open spec fn count_removed<V>(m: Map<V, nat>, k: V) -> Map<V, nat> {
    if !m.contains_key(k) {
        m
    } else if m[k] <= 1 {
        m.remove(k)
    } else {
        m.insert(k, (m[k] - 1) as nat)
    }
}

impl<K: Keyed> View for CountTable<K> {
    type V = Map<K::V, nat>;

    closed spec fn view(&self) -> Map<K::V, nat> {
        Map::new(
            |k: K::V| exists|i: int| 0 <= i < self.keys@.len() && self.keys@[i]@ == k,
            |k: K::V| self.counts@[key_index(self.keys@, k)] as nat,
        )
    }
}

impl<K: Keyed> CountTable<K> {
    /// Same lengths, distinct key views, positive counts.
    pub closed spec fn wf(&self) -> bool {
        &&& self.keys@.len() == self.counts@.len()
        &&& forall|i: int, j: int|
            0 <= i < self.keys@.len() && 0 <= j < self.keys@.len() && i != j ==> (
            #[trigger] self.keys@[i])@ != (#[trigger] self.keys@[j])@
        &&& forall|i: int| 0 <= i < self.counts@.len() ==> #[trigger] self.counts@[i] > 0
    }

    /// Number of distinct keys.
    pub closed spec fn spec_len(&self) -> nat {
        self.keys@.len()
    }

    /// The view of the key of entry `i`.
    pub closed spec fn key_at(&self, i: int) -> K::V {
        self.keys@[i]@
    }

    proof fn lemma_index(&self, i: int)
        requires
            self.wf(),
            0 <= i < self.keys@.len(),
        ensures
            key_index(self.keys@, self.keys@[i]@) == i,
            self@.contains_key(self.keys@[i]@),
            self@[self.keys@[i]@] == self.counts@[i] as nat,
    {
        let k = self.keys@[i]@;
        assert(exists|j: int| 0 <= j < self.keys@.len() && self.keys@[j]@ == k);
        let j = key_index(self.keys@, k);
        assert(0 <= j < self.keys@.len() && self.keys@[j]@ == k);
    }

    /// The keys of the view are exactly the entries' keys.
    pub proof fn lemma_keys(&self)
        requires
            self.wf(),
        ensures
            forall|k: K::V|
                #[trigger] self@.contains_key(k) <==> exists|i: int|
                    0 <= i < self.spec_len() && self.key_at(i) == k,
    {
        assert forall|k: K::V| #[trigger] self@.contains_key(k) <==> exists|i: int|
            0 <= i < self.spec_len() && self.key_at(i) == k by {
            if self@.contains_key(k) {
                let i = key_index(self.keys@, k);
                assert(self.key_at(i) == k);
            }
        }
    }

    /// No keys.
    pub fn new() -> (r: Self)
        ensures
            r.wf(),
            r@ == Map::<K::V, nat>::empty(),
    {
        let r = CountTable { keys: Vec::new(), counts: Vec::new() };
        assert(r@ =~= Map::<K::V, nat>::empty());
        r
    }

    /// Number of distinct keys.
    pub fn len(&self) -> (n: usize)
        ensures
            n == self.spec_len(),
    {
        self.keys.len()
    }

    /// The key of entry `i`.
    pub fn key(&self, i: usize) -> (k: &K)
        requires
            i < self.spec_len(),
        ensures
            k@ == self.key_at(i as int),
    {
        &self.keys[i]
    }

    /// Index of the entry whose key has the view of `k`.
    fn find(&self, k: &K) -> (r: Option<usize>)
        requires
            self.wf(),
        ensures
            r is None <==> !self@.contains_key(k@),
            r matches Some(i) ==> i < self.keys@.len() && self.keys@[i as int]@ == k@,
    {
        let mut i: usize = 0;
        while i < self.keys.len()
            invariant
                self.wf(),
                i <= self.keys@.len(),
                forall|j: int| 0 <= j < i ==> self.keys@[j]@ != k@,
            decreases self.keys@.len() - i,
        {
            if self.keys[i].same(k) {
                return Some(i);
            }
            i = i + 1;
        }
        proof {
            if self@.contains_key(k@) {
                let j = key_index(self.keys@, k@);
                assert(self.keys@[j]@ == k@);
            }
        }
        None
    }

    /// Whether some key has the view of `k`.
    pub fn contains(&self, k: &K) -> (r: bool)
        requires
            self.wf(),
        ensures
            r == self@.contains_key(k@),
    {
        self.find(k).is_some()
    }

    /// Adds `k` once more.
    pub fn add(&mut self, k: &K)
        requires
            old(self).wf(),
        ensures
            final(self).wf(),
            final(self)@ == count_added(old(self)@, k@),
    {
        match self.find(k) {
            Some(i) => {
                proof {
                    self.lemma_index(i as int);
                }
                let c = self.counts[i];
                self.counts.set(i, c.saturating_add(1));
                proof {
                    let ghost nv: nat = if c < usize::MAX {
                        (c + 1) as nat
                    } else {
                        c as nat
                    };
                    assert forall|kk: K::V| #[trigger] self@.contains_key(kk) == old(
                        self,
                    )@.insert(k@, nv).contains_key(kk) by {}
                    assert forall|kk: K::V| #[trigger] self@.contains_key(kk) implies self@[kk]
                        == old(self)@.insert(k@, nv)[kk] by {
                        let j = key_index(self.keys@, kk);
                        self.lemma_index(j);
                        old(self).lemma_index(j);
                    }
                    assert(self@ =~= old(self)@.insert(k@, nv));
                }
            },
            None => {
                self.keys.push(k.dup());
                self.counts.push(1);
                proof {
                    let n = old(self).keys@.len() as int;
                    assert forall|i: int, j: int|
                        0 <= i < self.keys@.len() && 0 <= j < self.keys@.len() && i != j implies (
                    #[trigger] self.keys@[i])@ != (#[trigger] self.keys@[j])@ by {
                        if i == n {
                            assert(old(self).keys@[j]@ != k@);
                        } else if j == n {
                            assert(old(self).keys@[i]@ != k@);
                        }
                    }
                    assert forall|i: int| 0 <= i < old(self).keys@.len() implies old(self).keys@[i]@ != k@ by {
                        old(self).lemma_index(i);
                    }
                    assert forall|kk: K::V| #[trigger] self@.contains_key(kk) == old(
                        self,
                    )@.insert(k@, 1).contains_key(kk) by {
                        if old(self)@.contains_key(kk) {
                            let j = key_index(old(self).keys@, kk);
                            assert(self.keys@[j]@ == kk);
                        }
                        if kk == k@ {
                            assert(self.keys@[n]@ == kk);
                        }
                    }
                    assert forall|kk: K::V| #[trigger] self@.contains_key(kk) implies self@[kk]
                        == old(self)@.insert(k@, 1)[kk] by {
                        let j = key_index(self.keys@, kk);
                        self.lemma_index(j);
                        if j < n {
                            old(self).lemma_index(j);
                        }
                    }
                    assert(self@ =~= old(self)@.insert(k@, 1));
                }
            },
        }
    }

    /// Removes `k` once; the last removal drops it.
    pub fn remove(&mut self, k: &K)
        requires
            old(self).wf(),
        ensures
            final(self).wf(),
            final(self)@ == count_removed(old(self)@, k@),
    {
        match self.find(k) {
            Some(i) => {
                proof {
                    self.lemma_index(i as int);
                }
                let c = self.counts[i];
                if c <= 1 {
                    self.keys.remove(i);
                    self.counts.remove(i);
                    proof {
                        assert forall|a: int, b: int|
                            0 <= a < self.keys@.len() && 0 <= b < self.keys@.len() && a != b implies (
                        #[trigger] self.keys@[a])@ != (#[trigger] self.keys@[b])@ by {
                            let oa = if a < i {
                                a
                            } else {
                                a + 1
                            };
                            let ob = if b < i {
                                b
                            } else {
                                b + 1
                            };
                            assert(self.keys@[a] == old(self).keys@[oa]);
                            assert(self.keys@[b] == old(self).keys@[ob]);
                        }
                        assert forall|a: int| 0 <= a < self.counts@.len() implies #[trigger] self.counts@[a]
                            > 0 by {
                            let oa = if a < i {
                                a
                            } else {
                                a + 1
                            };
                            assert(self.counts@[a] == old(self).counts@[oa]);
                        }
                        assert forall|kk: K::V| #[trigger] self@.contains_key(kk) == old(
                            self,
                        )@.remove(k@).contains_key(kk) by {
                            if self@.contains_key(kk) {
                                let j = key_index(self.keys@, kk);
                                let oj = if j < i {
                                    j
                                } else {
                                    j + 1
                                };
                                assert(self.keys@[j] == old(self).keys@[oj]);
                                assert(old(self).keys@[oj]@ == kk);
                            }
                            if old(self)@.remove(k@).contains_key(kk) {
                                let oj = key_index(old(self).keys@, kk);
                                assert(oj != i);
                                let j = if oj < i {
                                    oj
                                } else {
                                    oj - 1
                                };
                                assert(self.keys@[j] == old(self).keys@[oj]);
                            }
                        }
                        assert forall|kk: K::V| #[trigger] self@.contains_key(kk) implies self@[kk]
                            == old(self)@.remove(k@)[kk] by {
                            let j = key_index(self.keys@, kk);
                            self.lemma_index(j);
                            let oj = if j < i {
                                j
                            } else {
                                j + 1
                            };
                            assert(self.keys@[j] == old(self).keys@[oj]);
                            assert(self.counts@[j] == old(self).counts@[oj]);
                            old(self).lemma_index(oj);
                        }
                        assert(self@ =~= old(self)@.remove(k@));
                    }
                } else {
                    self.counts.set(i, c - 1);
                    proof {
                        let nv = (c - 1) as nat;
                        assert forall|kk: K::V| #[trigger] self@.contains_key(kk) == old(
                            self,
                        )@.insert(k@, nv).contains_key(kk) by {}
                        assert forall|kk: K::V| #[trigger] self@.contains_key(kk) implies self@[kk]
                            == old(self)@.insert(k@, nv)[kk] by {
                            let j = key_index(self.keys@, kk);
                            self.lemma_index(j);
                            old(self).lemma_index(j);
                        }
                        assert(self@ =~= old(self)@.insert(k@, nv));
                    }
                }
            },
            None => {},
        }
    }

    /// Removes every key.
    pub fn clear(&mut self)
        ensures
            final(self).wf(),
            final(self)@ == Map::<K::V, nat>::empty(),
    {
        self.keys.clear();
        self.counts.clear();
        assert(self@ =~= Map::<K::V, nat>::empty());
    }
}

} // verus!
