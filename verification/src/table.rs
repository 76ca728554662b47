//! Small insertion-ordered maps used for all of the node's bookkeeping.
use vstd::prelude::*;

verus! {

/// Keys that can be compared for equality in executable code.
pub trait KeyEq: Sized + Copy {
    fn key_eq(&self, other: &Self) -> (r: bool)
        ensures
            r == (*self == *other),
    ;
}

impl KeyEq for u128 {
    fn key_eq(&self, other: &Self) -> (r: bool) {
        *self == *other
    }
}

/// A map whose entries keep the order in which their keys were first
/// inserted.
pub struct Table<K, V> {
    keys: Vec<K>,
    vals: Vec<V>,
}

impl<K, V> Table<K, V> {
    /// The keys, in insertion order.
    pub closed spec fn key_seq(&self) -> Seq<K> {
        self.keys@
    }

    /// The values, in the order of their keys.
    pub closed spec fn value_seq(&self) -> Seq<V> {
        self.vals@
    }

    /// Every key occurs once and has exactly one value.
    pub closed spec fn wf(&self) -> bool {
        &&& self.keys@.len() == self.vals@.len()
        &&& self.keys@.no_duplicates()
    }

    /// The position of `k` among the keys.
    pub open spec fn index_of_key(&self, k: K) -> int {
        self.key_seq().index_of(k)
    }

    pub open spec fn view(&self) -> Map<K, V> {
        Map::new(
            |k: K| self.key_seq().contains(k),
            |k: K| self.value_seq()[self.index_of_key(k)],
        )
    }

    /// In a well-formed table, the value stored at position `i` is the value
    /// of the key at position `i`.
    pub proof fn lemma_entry(&self, i: int)
        requires
            self.wf(),
            0 <= i < self.key_seq().len(),
        ensures
            self.value_seq().len() == self.key_seq().len(),
            self.index_of_key(self.key_seq()[i]) == i,
            self@.dom().contains(self.key_seq()[i]),
            self@[self.key_seq()[i]] == self.value_seq()[i],
    {
        let k = self.keys@[i];
        assert(self.keys@.contains(k));
        let j = self.keys@.index_of(k);
        assert(self.keys@[j] == k);
    }

    /// The number of keys equals the size of the domain, and the domain is
    /// exactly the set of keys.
    pub proof fn lemma_len(&self)
        requires
            self.wf(),
        ensures
            self.value_seq().len() == self.key_seq().len(),
            self.key_seq().no_duplicates(),
            self@.dom() == self.key_seq().to_set(),
            self@.dom().len() == self.key_seq().len(),
            self@.dom().finite(),
    {
        assert(self@.dom() =~= self.keys@.to_set());
        self.keys@.unique_seq_to_set();
    }
}

impl<K: KeyEq, V> Table<K, V> {
    /// An empty table.
    pub fn new() -> (r: Self)
        ensures
            r.wf(),
            r@ == Map::<K, V>::empty(),
            r.key_seq() == Seq::<K>::empty(),
    {
        let r = Table { keys: Vec::new(), vals: Vec::new() };
        assert(r@ =~= Map::<K, V>::empty());
        r
    }

    /// The number of entries.
    pub fn len(&self) -> (r: usize)
        requires
            self.wf(),
        ensures
            r == self.key_seq().len(),
            r == self@.dom().len(),
    {
        proof {
            self.lemma_len();
        }
        self.keys.len()
    }

    /// The key at position `i`.
    pub fn key_at(&self, i: usize) -> (r: K)
        requires
            self.wf(),
            i < self.key_seq().len(),
        ensures
            r == self.key_seq()[i as int],
    {
        self.keys[i]
    }

    /// The value at position `i`.
    pub fn value_at(&self, i: usize) -> (r: &V)
        requires
            self.wf(),
            i < self.key_seq().len(),
        ensures
            *r == self.value_seq()[i as int],
            *r == self@[self.key_seq()[i as int]],
    {
        proof {
            self.lemma_entry(i as int);
        }
        &self.vals[i]
    }

    /// The position of `k`, if it is a key.
    pub fn find(&self, k: &K) -> (r: Option<usize>)
        requires
            self.wf(),
        ensures
            r is None <==> !self@.dom().contains(*k),
            r matches Some(i) ==> i < self.key_seq().len() && self.key_seq()[i as int] == *k
                && self.index_of_key(*k) == i,
    {
        let mut i: usize = 0;
        while i < self.keys.len()
            invariant
                self.wf(),
                i <= self.keys@.len(),
                forall|j: int| 0 <= j < i ==> self.keys@[j] != *k,
            decreases self.keys@.len() - i,
        {
            if self.keys[i].key_eq(k) {
                proof {
                    self.lemma_entry(i as int);
                }
                return Some(i);
            }
            i = i + 1;
        }
        None
    }

    /// Whether `k` is a key.
    pub fn contains_key(&self, k: &K) -> (r: bool)
        requires
            self.wf(),
        ensures
            r == self@.dom().contains(*k),
    {
        self.find(k).is_some()
    }

    /// The value of `k`, if it is a key.
    pub fn get(&self, k: &K) -> (r: Option<&V>)
        requires
            self.wf(),
        ensures
            r is Some <==> self@.dom().contains(*k),
            r matches Some(v) ==> *v == self@[*k],
    {
        match self.find(k) {
            Some(i) => Some(&self.vals[i]),
            None => None,
        }
    }

    /// Maps `k` to `v`, returning the value it replaced. A new key goes
    /// after all existing keys; an existing key keeps its position.
    pub fn insert(&mut self, k: K, v: V) -> (r: Option<V>)
        requires
            old(self).wf(),
        ensures
            final(self).wf(),
            final(self)@ == old(self)@.insert(k, v),
            old(self)@.dom().contains(k) ==> r == Some(old(self)@[k]) && final(self).key_seq()
                == old(self).key_seq(),
            !old(self)@.dom().contains(k) ==> r is None && final(self).key_seq()
                == old(self).key_seq().push(k),
    {
        match self.find(&k) {
            Some(i) => {
                let ghost old_t = *self;
                let mut tmp = v;
                proof {
                    old_t.lemma_entry(i as int);
                }
                std::mem::swap(&mut tmp, &mut self.vals[i]);
                proof {
                    assert forall|kk: K| #[trigger] self@.dom().contains(kk) && kk != k implies self@[kk]
                        == old_t@[kk] by {
                        let j = self.keys@.index_of(kk);
                        assert(self.keys@[j] == kk);
                        assert(j != i);
                        let j2 = old_t.keys@.index_of(kk);
                        assert(old_t.keys@[j2] == kk);
                    }
                    self.lemma_entry(i as int);
                    assert(self@ =~= old_t@.insert(k, v));
                }
                Some(tmp)
            },
            None => {
                let ghost old_t = *self;
                self.keys.push(k);
                self.vals.push(v);
                proof {
                    assert forall|a: int, b: int|
                        0 <= a < self.keys@.len() && 0 <= b < self.keys@.len() && a != b
                            implies self.keys@[a] != self.keys@[b] by {
                        if a < old_t.keys@.len() && b < old_t.keys@.len() {
                        } else if a == old_t.keys@.len() {
                            assert(old_t.keys@[b] != k) by {
                                if old_t.keys@[b] == k {
                                    assert(old_t.keys@.contains(k));
                                }
                            }
                        } else {
                            assert(old_t.keys@[a] != k) by {
                                if old_t.keys@[a] == k {
                                    assert(old_t.keys@.contains(k));
                                }
                            }
                        }
                    }
                    assert forall|kk: K| #[trigger] self@.dom().contains(kk) && kk != k implies self@[kk]
                        == old_t@[kk] by {
                        let j = self.keys@.index_of(kk);
                        assert(self.keys@[j] == kk);
                        assert(j < old_t.keys@.len());
                        assert(old_t.keys@.contains(kk));
                        let j2 = old_t.keys@.index_of(kk);
                        assert(old_t.keys@[j2] == kk);
                        assert(self.keys@[j2] == kk);
                    }
                    self.lemma_entry(old_t.keys@.len() as int);
                    assert forall|kk: K| #[trigger] self@.dom().contains(kk) <==> old_t@.dom().contains(kk)
                        || kk == k by {
                        if self.keys@.contains(kk) {
                            let j = self.keys@.index_of(kk);
                            if j < old_t.keys@.len() {
                                assert(old_t.keys@[j] == kk);
                            }
                        }
                        if old_t.keys@.contains(kk) {
                            let j = old_t.keys@.index_of(kk);
                            assert(self.keys@[j] == kk);
                        }
                        if kk == k {
                            assert(self.keys@[old_t.keys@.len() as int] == k);
                        }
                    }
                    assert(self@.dom() =~= old_t@.dom().insert(k));
                    assert(self@ =~= old_t@.insert(k, v));
                }
                None
            },
        }
    }

    /// A copy of this table, entries in the same order.
    pub fn copy(&self) -> (r: Self)
        where
            V: Copy,
        requires
            self.wf(),
        ensures
            r.wf(),
            r@ == self@,
            r.key_seq() == self.key_seq(),
    {
        let mut keys: Vec<K> = Vec::new();
        let mut vals: Vec<V> = Vec::new();
        let mut i: usize = 0;
        while i < self.keys.len()
            invariant
                self.wf(),
                i <= self.keys@.len(),
                keys@ == self.keys@.subrange(0, i as int),
                vals@ == self.vals@.subrange(0, i as int),
            decreases self.keys@.len() - i,
        {
            keys.push(self.keys[i]);
            vals.push(self.vals[i]);
            i = i + 1;
            assert(keys@ =~= self.keys@.subrange(0, i as int));
            assert(vals@ =~= self.vals@.subrange(0, i as int));
        }
        assert(keys@ =~= self.keys@);
        assert(vals@ =~= self.vals@);
        let r = Table { keys, vals };
        assert(r@ =~= self@);
        r
    }

    /// Removes every entry.
    pub fn clear(&mut self)
        ensures
            final(self).wf(),
            final(self)@ == Map::<K, V>::empty(),
            final(self).key_seq() == Seq::<K>::empty(),
    {
        self.keys = Vec::new();
        self.vals = Vec::new();
        assert(self@ =~= Map::<K, V>::empty());
    }

    /// Removes `k`, returning its value. The remaining keys keep their
    /// order.
    pub fn remove(&mut self, k: &K) -> (r: Option<V>)
        requires
            old(self).wf(),
        ensures
            final(self).wf(),
            final(self)@ == old(self)@.remove(*k),
            old(self)@.dom().contains(*k) ==> r == Some(old(self)@[*k]) && final(self).key_seq()
                == old(self).key_seq().remove(old(self).index_of_key(*k)),
            !old(self)@.dom().contains(*k) ==> r is None && *final(self) == *old(self),
    {
        match self.find(k) {
            Some(i) => {
                let ghost old_t = *self;
                proof {
                    old_t.lemma_entry(i as int);
                }
                self.keys.remove(i);
                let v = self.vals.remove(i);
                proof {
                    assert forall|a: int, b: int|
                        0 <= a < self.keys@.len() && 0 <= b < self.keys@.len() && a != b
                            implies self.keys@[a] != self.keys@[b] by {
                        let oa = if a < i { a } else { a + 1 };
                        let ob = if b < i { b } else { b + 1 };
                        assert(self.keys@[a] == old_t.keys@[oa]);
                        assert(self.keys@[b] == old_t.keys@[ob]);
                    }
                    assert forall|kk: K| #[trigger] self@.dom().contains(kk) <==> old_t@.dom().contains(kk)
                        && kk != *k by {
                        if self.keys@.contains(kk) {
                            let j = self.keys@.index_of(kk);
                            let oj = if j < i { j } else { j + 1 };
                            assert(old_t.keys@[oj] == kk);
                        }
                        if old_t.keys@.contains(kk) && kk != *k {
                            let j = old_t.keys@.index_of(kk);
                            assert(j != i);
                            let nj = if j < i { j } else { j - 1 };
                            assert(self.keys@[nj] == kk);
                        }
                    }
                    assert forall|kk: K| #[trigger] self@.dom().contains(kk) implies self@[kk]
                        == old_t@[kk] by {
                        let j = self.keys@.index_of(kk);
                        assert(self.keys@[j] == kk);
                        let oj = if j < i { j } else { j + 1 };
                        assert(old_t.keys@[oj] == kk);
                        old_t.lemma_entry(oj);
                    }
                    assert(self@ =~= old_t@.remove(*k));
                }
                Some(v)
            },
            None => {
                proof {
                    assert(self@ =~= self@.remove(*k));
                }
                None
            },
        }
    }
}

} // verus!
