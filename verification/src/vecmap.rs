//! A small map kept as a vector of entries, for keys that only support
//! equality.  It stands for the chain's storage maps.

use vstd::prelude::*;

verus! {

/// A key that can be compared and copied in executable code, consistently
/// with its view.
pub trait MapKey: View + Sized {
    /// Whether two keys are equal.
    fn key_eq(&self, other: &Self) -> (r: bool)
        ensures
            r == (self@ == other@),
    ;

    /// A copy of the key.
    fn key_clone(&self) -> (r: Self)
        ensures
            r@ == self@,
    ;
}

impl MapKey for u64 {
    fn key_eq(&self, other: &Self) -> (r: bool) {
        *self == *other
    }

    fn key_clone(&self) -> (r: Self) {
        *self
    }
}

impl MapKey for u32 {
    fn key_eq(&self, other: &Self) -> (r: bool) {
        *self == *other
    }

    fn key_clone(&self) -> (r: Self) {
        *self
    }
}

/// Whether two byte strings are equal.
pub fn bytes_eq(a: &Vec<u8>, b: &Vec<u8>) -> (r: bool)
    ensures
        r == (a@ == b@),
{
    if a.len() != b.len() {
        return false;
    }
    let mut i: usize = 0;
    while i < a.len()
        invariant
            a.len() == b.len(),
            i <= a.len(),
            forall|j: int| 0 <= j < i ==> a@[j] == b@[j],
        decreases a.len() - i,
    {
        if a[i] != b[i] {
            return false;
        }
        i += 1;
    }
    assert(a@ =~= b@);
    true
}

/// A copy of a byte string.
pub fn bytes_clone(a: &Vec<u8>) -> (r: Vec<u8>)
    ensures
        r@ == a@,
{
    let mut r: Vec<u8> = Vec::new();
    let mut i: usize = 0;
    while i < a.len()
        invariant
            i <= a.len(),
            r@ == a@.take(i as int),
        decreases a.len() - i,
    {
        r.push(a[i]);
        i += 1;
        assert(r@ =~= a@.take(i as int));
    }
    assert(a@.take(a.len() as int) =~= a@);
    r
}

impl MapKey for Vec<u8> {
    fn key_eq(&self, other: &Self) -> (r: bool) {
        bytes_eq(self, other)
    }

    fn key_clone(&self) -> (r: Self) {
        bytes_clone(self)
    }
}

/// A map from keys to values, kept as a vector of entries with distinct keys.
pub struct VecMap<K, V> {
    entries: Vec<(K, V)>,
}

impl<K: MapKey, V> VecMap<K, V> {
    /// The view of the key of entry `i`.
    pub closed spec fn key_at(&self, i: int) -> K::V {
        self.entries@[i].0@
    }

    /// The number of entries.
    pub closed spec fn spec_len(&self) -> nat {
        self.entries@.len()
    }

    /// The keys, in entry order.
    pub closed spec fn key_seq(&self) -> Seq<K::V> {
        Seq::new(self.entries@.len(), |i: int| self.entries@[i].0@)
    }

    /// Whether some entry has key `k`.
    pub closed spec fn has(&self, k: K::V) -> bool {
        exists|i: int| 0 <= i < self.entries@.len() && self.key_at(i) == k
    }

    /// The entry holding key `k`.
    pub closed spec fn idx(&self, k: K::V) -> int {
        choose|i: int| 0 <= i < self.entries@.len() && self.key_at(i) == k
    }

    /// No two entries share a key.
    pub closed spec fn wf(&self) -> bool {
        forall|i: int, j: int|
            0 <= i < self.entries@.len() && 0 <= j < self.entries@.len() && i != j
                ==> self.key_at(i) != self.key_at(j)
    }

    /// The map that the entries stand for.
    pub closed spec fn view(&self) -> Map<K::V, V> {
        Map::new(|k: K::V| self.has(k), |k: K::V| self.entries@[self.idx(k)].1)
    }

    proof fn lemma_idx(&self, i: int)
        requires
            self.wf(),
            0 <= i < self.entries@.len(),
        ensures
            self.has(self.key_at(i)),
            self.idx(self.key_at(i)) == i,
            self.view().contains_key(self.key_at(i)),
            self.view()[self.key_at(i)] == self.entries@[i].1,
    {
        assert(self.has(self.key_at(i)));
    }

    /// The view has one key per entry.
    pub proof fn lemma_len(&self)
        requires
            self.wf(),
        ensures
            self.view().dom().finite(),
            self.view().dom().len() == self.spec_len(),
            self.view().dom() == self.key_seq().to_set(),
            self.key_seq().no_duplicates(),
            self.key_seq().len() == self.spec_len(),
    {
        let ks = self.key_seq();
        assert(ks.no_duplicates()) by {
            assert forall|i: int, j: int| 0 <= i < ks.len() && 0 <= j < ks.len() && i != j
                implies ks[i] != ks[j] by {
                assert(ks[i] == self.key_at(i));
                assert(ks[j] == self.key_at(j));
            }
        }
        assert(self.view().dom() =~= ks.to_set()) by {
            assert forall|k: K::V| self.view().dom().contains(k) implies ks.to_set().contains(k) by {
                let i = self.idx(k);
                assert(ks[i] == k);
            }
            assert forall|k: K::V| ks.to_set().contains(k) implies self.view().dom().contains(k) by {
                let i = choose|i: int| 0 <= i < ks.len() && ks[i] == k;
                assert(self.key_at(i) == k);
            }
        }
        ks.unique_seq_to_set();
    }

    /// An empty map.
    pub fn new() -> (r: Self)
        ensures
            r.wf(),
            r@ == Map::<K::V, V>::empty(),
            r.spec_len() == 0,
    {
        let r = VecMap { entries: Vec::new() };
        assert(r@ =~= Map::<K::V, V>::empty());
        r
    }

    /// A copy of a map whose values can be copied.
    pub fn copy(&self) -> (r: Self)
        where V: Copy
        requires
            self.wf(),
        ensures
            r.wf(),
            r@ == self@,
            r.spec_len() == self.spec_len(),
    {
        let mut entries: Vec<(K, V)> = Vec::new();
        let mut i: usize = 0;
        while i < self.entries.len()
            invariant
                self.wf(),
                i <= self.entries@.len(),
                entries@.len() == i,
                forall|j: int| 0 <= j < i ==> entries@[j].0@ == self.entries@[j].0@ && entries@[j].1
                    == self.entries@[j].1,
            decreases self.entries@.len() - i,
        {
            let e = &self.entries[i];
            entries.push((e.0.key_clone(), e.1));
            i += 1;
        }
        let r = VecMap { entries };
        proof {
            assert forall|j: int| 0 <= j < r.entries@.len() implies r.key_at(j) == self.key_at(j) by {}
            assert forall|k: K::V| #[trigger] r.has(k) == self.has(k) by {
                if r.has(k) {
                    let j = choose|j: int| 0 <= j < r.entries@.len() && r.key_at(j) == k;
                    assert(self.key_at(j) == k);
                }
                if self.has(k) {
                    let j = choose|j: int| 0 <= j < self.entries@.len() && self.key_at(j) == k;
                    assert(r.key_at(j) == k);
                }
            }
            assert forall|a: int, b: int|
                0 <= a < r.entries@.len() && 0 <= b < r.entries@.len() && a != b
                    implies r.key_at(a) != r.key_at(b) by {
                assert(r.key_at(a) == self.key_at(a));
                assert(r.key_at(b) == self.key_at(b));
            }
            assert forall|k: K::V| r@.contains_key(k) implies r@[k] == self@[k] by {
                let j = r.idx(k);
                r.lemma_idx(j);
                self.lemma_idx(j);
            }
            assert(r@ =~= self@);
        }
        r
    }

    /// The number of entries.
    pub fn len(&self) -> (r: usize)
        ensures
            r == self.spec_len(),
    {
        self.entries.len()
    }

    /// The key and value of entry `i`.
    pub fn entry(&self, i: usize) -> (r: (&K, &V))
        requires
            self.wf(),
            i < self.spec_len(),
        ensures
            r.0@ == self.key_seq()[i as int],
            self@.contains_key(r.0@),
            self@[r.0@] == *r.1,
    {
        proof {
            self.lemma_idx(i as int);
        }
        let e = &self.entries[i];
        (&e.0, &e.1)
    }

    fn find(&self, k: &K) -> (r: Option<usize>)
        requires
            self.wf(),
        ensures
            r is None <==> !self.has(k@),
            r matches Some(i) ==> i < self.entries@.len() && self.key_at(i as int) == k@,
    {
        let mut i: usize = 0;
        while i < self.entries.len()
            invariant
                i <= self.entries@.len(),
                forall|j: int| 0 <= j < i ==> self.key_at(j) != k@,
            decreases self.entries@.len() - i,
        {
            if self.entries[i].0.key_eq(k) {
                assert(self.key_at(i as int) == k@);
                return Some(i);
            }
            i += 1;
        }
        None
    }

    /// Whether the map has key `k`.
    pub fn contains_key(&self, k: &K) -> (r: bool)
        requires
            self.wf(),
        ensures
            r == self@.contains_key(k@),
    {
        self.find(k).is_some()
    }

    /// The value at key `k`, if any.
    pub fn get(&self, k: &K) -> (r: Option<&V>)
        requires
            self.wf(),
        ensures
            r is Some <==> self@.contains_key(k@),
            r matches Some(v) ==> *v == self@[k@],
    {
        match self.find(k) {
            Some(i) => {
                proof {
                    self.lemma_idx(i as int);
                }
                Some(&self.entries[i].1)
            },
            None => None,
        }
    }

    /// Sets the value at key `k`.
    pub fn insert(&mut self, k: K, v: V)
        requires
            old(self).wf(),
        ensures
            final(self).wf(),
            final(self)@ == old(self)@.insert(k@, v),
    {
        let ghost kv = k@;
        let ghost vv = v;
        let ghost pre = *self;
        match self.find(&k) {
            Some(i) => {
                self.entries.set(i, (k, v));
                proof {
                    assert forall|j: int| 0 <= j < self.entries@.len() && j != i implies
                        self.key_at(j) == pre.key_at(j) by {}
                    assert(self.key_at(i as int) == pre.key_at(i as int));
                    assert forall|a: int, b: int|
                        0 <= a < self.entries@.len() && 0 <= b < self.entries@.len() && a != b
                            implies self.key_at(a) != self.key_at(b) by {
                        assert(self.key_at(a) == pre.key_at(a));
                        assert(self.key_at(b) == pre.key_at(b));
                    }
                    assert forall|q: K::V| #[trigger] self@.contains_key(q) == pre@.insert(kv, vv).contains_key(q) by {
                        if q == kv {
                            assert(self.key_at(i as int) == q);
                        } else if self.has(q) {
                            let j = choose|j: int| 0 <= j < self.entries@.len() && self.key_at(j) == q;
                            assert(pre.key_at(j) == q);
                        } else if pre.has(q) {
                            let j = choose|j: int| 0 <= j < pre.entries@.len() && pre.key_at(j) == q;
                            assert(self.key_at(j) == q);
                        }
                    }
                    assert forall|q: K::V| self@.contains_key(q) implies self@[q] == pre@.insert(kv, vv)[q] by {
                        let j = self.idx(q);
                        self.lemma_idx(j);
                        if q != kv {
                            assert(j != i);
                            pre.lemma_idx(j);
                        }
                    }
                    assert(self@ =~= pre@.insert(kv, vv));
                }
            },
            None => {
                self.entries.push((k, v));
                proof {
                    let n = pre.entries@.len();
                    assert forall|j: int| 0 <= j < n implies self.key_at(j) == pre.key_at(j) by {}
                    assert(self.key_at(n as int) == kv);
                    assert forall|a: int, b: int|
                        0 <= a < self.entries@.len() && 0 <= b < self.entries@.len() && a != b
                            implies self.key_at(a) != self.key_at(b) by {
                        if a < n && b < n {
                            assert(self.key_at(a) == pre.key_at(a));
                            assert(self.key_at(b) == pre.key_at(b));
                        } else if a < n {
                            assert(self.key_at(a) == pre.key_at(a));
                        } else if b < n {
                            assert(self.key_at(b) == pre.key_at(b));
                        }
                    }
                    assert forall|q: K::V| #[trigger] self@.contains_key(q) == pre@.insert(kv, vv).contains_key(q) by {
                        if q == kv {
                            assert(self.key_at(n as int) == q);
                        } else if self.has(q) {
                            let j = choose|j: int| 0 <= j < self.entries@.len() && self.key_at(j) == q;
                            assert(pre.key_at(j) == q);
                        } else if pre.has(q) {
                            let j = choose|j: int| 0 <= j < pre.entries@.len() && pre.key_at(j) == q;
                            assert(self.key_at(j) == q);
                        }
                    }
                    assert forall|q: K::V| self@.contains_key(q) implies self@[q] == pre@.insert(kv, vv)[q] by {
                        let j = self.idx(q);
                        self.lemma_idx(j);
                        if q != kv {
                            assert(j != n);
                            pre.lemma_idx(j);
                        }
                    }
                    assert(self@ =~= pre@.insert(kv, vv));
                }
            },
        }
    }

    /// Removes key `k`, returning its value if it was there.
    pub fn remove(&mut self, k: &K) -> (r: Option<V>)
        requires
            old(self).wf(),
        ensures
            final(self).wf(),
            final(self)@ == old(self)@.remove(k@),
            r is Some <==> old(self)@.contains_key(k@),
            r matches Some(v) ==> v == old(self)@[k@],
    {
        let ghost pre = *self;
        match self.find(k) {
            Some(i) => {
                proof {
                    pre.lemma_idx(i as int);
                }
                let e = self.entries.remove(i);
                proof {
                    let kv = k@;
                    assert forall|j: int| 0 <= j < self.entries@.len() implies
                        self.key_at(j) == pre.key_at(if j < i { j } else { j + 1 }) by {}
                    assert forall|q: K::V| #[trigger] self@.contains_key(q) == pre@.remove(kv).contains_key(q) by {
                        if self.has(q) {
                            let j = choose|j: int| 0 <= j < self.entries@.len() && self.key_at(j) == q;
                            let pj = if j < i { j } else { j + 1 };
                            assert(pre.key_at(pj) == q);
                            assert(pj != i);
                        } else if pre.has(q) && q != kv {
                            let j = choose|j: int| 0 <= j < pre.entries@.len() && pre.key_at(j) == q;
                            assert(j != i);
                            let sj = if j < i { j } else { j - 1 };
                            assert(self.key_at(sj) == q);
                        }
                    }
                    assert forall|q: K::V| self@.contains_key(q) implies self@[q] == pre@.remove(kv)[q] by {
                        let j = self.idx(q);
                        self.lemma_idx(j);
                        let pj = if j < i { j } else { j + 1 };
                        pre.lemma_idx(pj);
                    }
                    assert(self@ =~= pre@.remove(kv));
                }
                Some(e.1)
            },
            None => {
                assert(self@ =~= pre@.remove(k@));
                None
            },
        }
    }
}

} // verus!
