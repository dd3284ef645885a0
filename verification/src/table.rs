//! A small map keyed by strings, kept as two parallel vectors with unique keys.
use vstd::prelude::*;

verus! {

/// String-keyed map; its view is a `Map` from the keys' chars to the values.
pub struct StrMap<V> {
    keys: Vec<String>,
    vals: Vec<V>,
}

/// Index of some entry whose key has chars `k`.
pub open spec fn index_of(keys: Seq<String>, k: Seq<char>) -> int {
    choose|i: int| 0 <= i < keys.len() && keys[i]@ == k
}

/// Whether some key has chars `k`.
pub open spec fn has_key(keys: Seq<String>, k: Seq<char>) -> bool {
    exists|i: int| 0 <= i < keys.len() && keys[i]@ == k
}

impl<V> View for StrMap<V> {
    type V = Map<Seq<char>, V>;

    closed spec fn view(&self) -> Map<Seq<char>, V> {
        Map::new(
            |k: Seq<char>| has_key(self.keys@, k),
            |k: Seq<char>| self.vals@[index_of(self.keys@, k)],
        )
    }
}

impl<V> StrMap<V> {
    /// Parallel vectors of the same length, no key twice.
    pub closed spec fn wf(&self) -> bool {
        &&& self.keys@.len() == self.vals@.len()
        &&& forall|i: int, j: int|
            0 <= i < self.keys@.len() && 0 <= j < self.keys@.len() && i != j ==> (
            #[trigger] self.keys@[i])@ != (#[trigger] self.keys@[j])@
    }

    /// Number of entries.
    pub closed spec fn spec_len(&self) -> nat {
        self.keys@.len()
    }

    /// The key of entry `i`.
    pub closed spec fn key_at(&self, i: int) -> Seq<char> {
        self.keys@[i]@
    }

    /// The value of entry `i`.
    pub closed spec fn val_at(&self, i: int) -> V {
        self.vals@[i]
    }

    proof fn lemma_index(&self, i: int)
        requires
            self.wf(),
            0 <= i < self.keys@.len(),
        ensures
            has_key(self.keys@, self.keys@[i]@),
            index_of(self.keys@, self.keys@[i]@) == i,
            self@.contains_key(self.keys@[i]@),
            self@[self.keys@[i]@] == self.vals@[i],
    {
        let k = self.keys@[i]@;
        assert(has_key(self.keys@, k));
        let j = index_of(self.keys@, k);
        assert(0 <= j < self.keys@.len() && self.keys@[j]@ == k);
    }

    /// Every key of the view is the key of some entry.
    pub proof fn lemma_view_keys(&self)
        requires
            self.wf(),
        ensures
            forall|k: Seq<char>|
                #[trigger] self@.contains_key(k) <==> exists|i: int|
                    0 <= i < self.spec_len() && self.key_at(i) == k,
            forall|i: int|
                0 <= i < self.spec_len() ==> #[trigger] self@[self.key_at(i)] == self.val_at(i)
                    && self@.contains_key(self.key_at(i)),
    {
        assert forall|k: Seq<char>| #[trigger] self@.contains_key(k) <==> exists|i: int|
            0 <= i < self.spec_len() && self.key_at(i) == k by {
            if self@.contains_key(k) {
                assert(has_key(self.keys@, k));
                let i = index_of(self.keys@, k);
                assert(self.key_at(i) == k);
            }
            if exists|i: int| 0 <= i < self.spec_len() && self.key_at(i) == k {
                let i = choose|i: int| 0 <= i < self.spec_len() && self.key_at(i) == k;
                self.lemma_index(i);
            }
        }
        assert forall|i: int| 0 <= i < self.spec_len() implies #[trigger] self@[self.key_at(i)]
            == self.val_at(i) && self@.contains_key(self.key_at(i)) by {
            self.lemma_index(i);
        }
    }

    /// The view has one key per entry, and no two entries share a key.
    pub proof fn lemma_len(&self)
        requires
            self.wf(),
        ensures
            self@.dom().finite(),
            self@.dom().len() == self.spec_len(),
            forall|i: int, j: int|
                0 <= i < j < self.spec_len() ==> self.key_at(i) != self.key_at(j),
    {
        let ks = str_views(self.keys@);
        assert(ks.no_duplicates()) by {
            assert forall|i: int, j: int| 0 <= i < ks.len() && 0 <= j < ks.len() && i != j implies ks[i]
                != ks[j] by {
                assert(ks[i] == self.keys@[i]@ && ks[j] == self.keys@[j]@);
            }
        }
        ks.unique_seq_to_set();
        self.lemma_view_keys();
        assert forall|k: Seq<char>| self@.dom().contains(k) <==> ks.to_set().contains(k) by {
            if self@.dom().contains(k) {
                let i = choose|i: int| 0 <= i < self.spec_len() && self.key_at(i) == k;
                assert(ks[i] == k);
            }
            if ks.to_set().contains(k) {
                let i = choose|i: int| 0 <= i < ks.len() && ks[i] == k;
                assert(self.key_at(i) == k);
            }
        }
        assert(self@.dom() =~= ks.to_set());
        vstd::seq_lib::seq_to_set_is_finite(ks);
    }

    /// An empty map.
    pub fn new() -> (r: Self)
        ensures
            r.wf(),
            r@ == Map::<Seq<char>, V>::empty(),
            r.spec_len() == 0,
    {
        let r = StrMap { keys: Vec::new(), vals: Vec::new() };
        assert(r@ =~= Map::<Seq<char>, V>::empty());
        r
    }

    /// Number of entries.
    pub fn len(&self) -> (n: usize)
        ensures
            n == self.spec_len(),
    {
        self.keys.len()
    }

    /// The key of entry `i`.
    pub fn key(&self, i: usize) -> (k: &String)
        requires
            i < self.spec_len(),
        ensures
            k@ == self.key_at(i as int),
    {
        &self.keys[i]
    }

    /// The value of entry `i`.
    pub fn val(&self, i: usize) -> (v: &V)
        requires
            self.wf(),
            i < self.spec_len(),
        ensures
            *v == self.val_at(i as int),
    {
        &self.vals[i]
    }

    /// The entry whose key has the chars of `k`.
    pub fn find(&self, k: &str) -> (r: Option<usize>)
        requires
            self.wf(),
        ensures
            r is None <==> !self@.contains_key(k@),
            r matches Some(i) ==> i < self.spec_len() && self.key_at(i as int) == k@
                && self@[k@] == self.val_at(i as int),
    {
        let mut i: usize = 0;
        while i < self.keys.len()
            invariant
                self.wf(),
                i <= self.keys@.len(),
                forall|j: int| 0 <= j < i ==> self.keys@[j]@ != k@,
            decreases self.keys@.len() - i,
        {
            if str_eq(self.keys[i].as_str(), k) {
                proof {
                    self.lemma_index(i as int);
                }
                return Some(i);
            }
            i = i + 1;
        }
        None
    }

    /// Replaces the value of entry `i`, returning the old one.
    pub fn replace(&mut self, i: usize, v: V) -> (old_v: V)
        requires
            old(self).wf(),
            i < old(self).spec_len(),
        ensures
            final(self).wf(),
            old_v == old(self).val_at(i as int),
            final(self).spec_len() == old(self).spec_len(),
            forall|j: int| 0 <= j < old(self).spec_len() ==> final(self).key_at(j) == old(self).key_at(j),
            forall|j: int|
                0 <= j < old(self).spec_len() && j != i ==> final(self).val_at(j) == old(
                    self,
                ).val_at(j),
            final(self).val_at(i as int) == v,
            final(self)@ == old(self)@.insert(old(self).key_at(i as int), v),
    {
        proof {
            old(self).lemma_index(i as int);
        }
        let mut tmp = v;
        std::mem::swap(&mut self.vals[i], &mut tmp);
        proof {
            let k = old(self).keys@[i as int]@;
            assert forall|kk: Seq<char>| #[trigger] self@.contains_key(kk) implies old(
                self,
            )@.insert(k, v).contains_key(kk) && self@[kk] == old(self)@.insert(k, v)[kk] by {
                let j = index_of(self.keys@, kk);
                self.lemma_index(j);
                old(self).lemma_index(j);
            }
            assert forall|kk: Seq<char>| #[trigger] old(self)@.insert(k, v).contains_key(
                kk,
            ) implies self@.contains_key(kk) by {
                if kk != k {
                    let j = index_of(old(self).keys@, kk);
                    self.lemma_index(j);
                } else {
                    self.lemma_index(i as int);
                }
            }
            assert(self@ =~= old(self)@.insert(k, v));
        }
        tmp
    }

    /// Adds an entry for a key that is not present.
    pub fn push(&mut self, k: String, v: V)
        requires
            old(self).wf(),
            !old(self)@.contains_key(k@),
        ensures
            final(self).wf(),
            final(self)@ == old(self)@.insert(k@, v),
            final(self).spec_len() == old(self).spec_len() + 1,
            final(self).key_at(old(self).spec_len() as int) == k@,
            final(self).val_at(old(self).spec_len() as int) == v,
            forall|j: int|
                0 <= j < old(self).spec_len() ==> final(self).key_at(j) == old(self).key_at(j)
                    && final(self).val_at(j) == old(self).val_at(j),
    {
        let ghost kv = k@;
        proof {
            old(self).lemma_view_keys();
        }
        self.keys.push(k);
        self.vals.push(v);
        proof {
            let n = old(self).keys@.len() as int;
            assert forall|i: int, j: int|
                0 <= i < self.keys@.len() && 0 <= j < self.keys@.len() && i != j implies (
            #[trigger] self.keys@[i])@ != (#[trigger] self.keys@[j])@ by {
                if i == n {
                    assert(old(self)@.contains_key(self.keys@[j]@));
                } else if j == n {
                    assert(old(self)@.contains_key(self.keys@[i]@));
                }
            }
            assert forall|kk: Seq<char>| #[trigger] self@.contains_key(kk) implies old(
                self,
            )@.insert(kv, v).contains_key(kk) && self@[kk] == old(self)@.insert(kv, v)[kk] by {
                let j = index_of(self.keys@, kk);
                self.lemma_index(j);
                if j < n {
                    old(self).lemma_index(j);
                }
            }
            assert forall|kk: Seq<char>| #[trigger] old(self)@.insert(kv, v).contains_key(
                kk,
            ) implies self@.contains_key(kk) by {
                if kk != kv {
                    let j = index_of(old(self).keys@, kk);
                    self.lemma_index(j);
                } else {
                    self.lemma_index(n);
                }
            }
            assert(self@ =~= old(self)@.insert(kv, v));
        }
    }

    /// Removes entry `i`, returning its value.
    pub fn remove_at(&mut self, i: usize) -> (v: V)
        requires
            old(self).wf(),
            i < old(self).spec_len(),
        ensures
            final(self).wf(),
            v == old(self).val_at(i as int),
            final(self)@ == old(self)@.remove(old(self).key_at(i as int)),
            final(self).spec_len() == old(self).spec_len() - 1,
    {
        let ghost k = self.keys@[i as int]@;
        proof {
            old(self).lemma_index(i as int);
        }
        self.keys.remove(i);
        let v = self.vals.remove(i);
        proof {
            assert forall|a: int, b: int|
                0 <= a < self.keys@.len() && 0 <= b < self.keys@.len() && a != b implies (
            #[trigger] self.keys@[a])@ != (#[trigger] self.keys@[b])@ by {
                let oa = if a < i {
                    a
                } else {
                    a + 1
                };
                let ob = if b < i {
                    b
                } else {
                    b + 1
                };
                assert(self.keys@[a] == old(self).keys@[oa]);
                assert(self.keys@[b] == old(self).keys@[ob]);
            }
            assert forall|kk: Seq<char>| #[trigger] self@.contains_key(kk) implies old(
                self,
            )@.remove(k).contains_key(kk) && self@[kk] == old(self)@.remove(k)[kk] by {
                let j = index_of(self.keys@, kk);
                self.lemma_index(j);
                let oj = if j < i {
                    j
                } else {
                    j + 1
                };
                assert(self.keys@[j] == old(self).keys@[oj]);
                assert(self.vals@[j] == old(self).vals@[oj]);
                old(self).lemma_index(oj);
            }
            assert forall|kk: Seq<char>| #[trigger] old(self)@.remove(k).contains_key(
                kk,
            ) implies self@.contains_key(kk) by {
                let oj = index_of(old(self).keys@, kk);
                old(self).lemma_index(oj);
                let j = if oj < i {
                    oj
                } else {
                    oj - 1
                };
                assert(self.keys@[j] == old(self).keys@[oj]);
            }
            assert(self@ =~= old(self)@.remove(k));
        }
        v
    }
}

/// The chars of each string of `s`.
pub open spec fn str_views(s: Seq<String>) -> Seq<Seq<char>> {
    s.map_values(|x: String| x@)
}

/// A set of strings, kept as a `StrMap` whose values carry nothing.
pub struct StrSet {
    map: StrMap<()>,
}

impl View for StrSet {
    type V = Set<Seq<char>>;

    closed spec fn view(&self) -> Set<Seq<char>> {
        self.map@.dom()
    }
}

impl StrSet {
    pub closed spec fn wf(&self) -> bool {
        self.map.wf()
    }

    /// The empty set.
    pub fn new() -> (r: Self)
        ensures
            r.wf(),
            r@ == Set::<Seq<char>>::empty(),
    {
        let r = StrSet { map: StrMap::new() };
        assert(r@ =~= Set::<Seq<char>>::empty());
        r
    }

    /// Whether `k` is in the set.
    pub fn contains(&self, k: &str) -> (r: bool)
        requires
            self.wf(),
        ensures
            r == self@.contains(k@),
    {
        self.map.find(k).is_some()
    }

    /// Adds `k`.
    pub fn insert(&mut self, k: String)
        requires
            old(self).wf(),
        ensures
            final(self).wf(),
            final(self)@ == old(self)@.insert(k@),
    {
        if self.map.find(k.as_str()).is_none() {
            self.map.push(k, ());
        }
        assert(self@ =~= old(self)@.insert(k@));
    }

    /// Removes `k`.
    pub fn remove(&mut self, k: &str)
        requires
            old(self).wf(),
        ensures
            final(self).wf(),
            final(self)@ == old(self)@.remove(k@),
    {
        match self.map.find(k) {
            Some(i) => {
                self.map.remove_at(i);
            },
            None => {},
        }
        assert(self@ =~= old(self)@.remove(k@));
    }
}

/// Whether two strings have the same chars.
pub(crate) fn str_eq(a: &str, b: &str) -> (r: bool)
    ensures
        r == (a@ == b@),
{
    let x = crate::utf16::str_chars(a);
    let y = crate::utf16::str_chars(b);
    if x.len() != y.len() {
        return false;
    }
    let mut i: usize = 0;
    while i < x.len()
        invariant
            x@ == a@,
            y@ == b@,
            x@.len() == y@.len(),
            i <= x@.len(),
            forall|j: int| 0 <= j < i ==> x@[j] == y@[j],
        decreases x@.len() - i,
    {
        if x[i] != y[i] {
            return false;
        }
        i = i + 1;
    }
    assert(x@ =~= y@);
    true
}

} // verus!
