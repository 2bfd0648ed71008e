//! Keyed tables held as vectors of entries with unique keys: the in-memory
//! form of the storage column families.

use vstd::prelude::*;

verus! {

/// Keys that can be compared for equality in executable code.
pub trait TableKey: Sized + Copy {
    fn same(&self, other: &Self) -> (r: bool)
        ensures
            r == (*self == *other),
    ;
}

/// A table from keys to values.
#[verifier::reject_recursive_types(K)]
pub struct Table<K, T> {
    entries: Vec<(K, T)>,
    map: Ghost<Map<K, T>>,
}

impl<K, T> View for Table<K, T> {
    type V = Map<K, T>;

    closed spec fn view(&self) -> Map<K, T> {
        self.map@
    }
}

impl<K: TableKey, T: Copy> Table<K, T> {
    /// The entries, in the order the table holds them.
    pub closed spec fn entries(&self) -> Seq<(K, T)> {
        self.entries@
    }

    /// The keys, in the order the table holds them.
    pub open spec fn keys(&self) -> Seq<K> {
        self.entries().map_values(|e: (K, T)| e.0)
    }

    pub closed spec fn wf(&self) -> bool {
        &&& forall|i: int, j: int|
            0 <= i < j < self.entries@.len() ==> #[trigger] self.entries@[i].0
                != #[trigger] self.entries@[j].0
        &&& forall|i: int|
            0 <= i < self.entries@.len() ==> self.map@.contains_key(#[trigger] self.entries@[i].0)
                && self.map@[self.entries@[i].0] == self.entries@[i].1
        &&& forall|k: K|
            #[trigger] self.map@.contains_key(k) ==> exists|i: int|
                0 <= i < self.entries@.len() && #[trigger] self.entries@[i].0 == k
    }

    /// The keys are unique, and they are exactly the keys of the view.
    pub proof fn lemma_keys(&self)
        requires
            self.wf(),
        ensures
            self.keys().no_duplicates(),
            self.keys().to_set() == self@.dom(),
            self.keys().len() == self@.dom().len(),
            self@.dom().finite(),
            forall|i: int|
                0 <= i < self.entries().len() ==> #[trigger] self.entries()[i].0 == self.keys()[i]
                    && self@[self.keys()[i]] == self.entries()[i].1,
    {
        let ks = self.keys();
        assert forall|i: int, j: int| 0 <= i < ks.len() && 0 <= j < ks.len() && i != j implies ks[i]
            != ks[j] by {
            if i < j {
                assert(self.entries@[i].0 != self.entries@[j].0);
            } else {
                assert(self.entries@[j].0 != self.entries@[i].0);
            }
        }
        assert forall|k: K| ks.to_set().contains(k) <==> self@.dom().contains(k) by {
            if self@.dom().contains(k) {
                let i = choose|i: int| 0 <= i < self.entries@.len() && #[trigger] self.entries@[i].0 == k;
                assert(ks[i] == k);
            }
            if ks.to_set().contains(k) {
                let i = choose|i: int| 0 <= i < ks.len() && ks[i] == k;
                assert(self.entries@[i].0 == k);
            }
        }
        assert(ks.to_set() =~= self@.dom());
        ks.unique_seq_to_set();
    }

    pub fn new() -> (r: Table<K, T>)
        ensures
            r.wf(),
            r@ == Map::<K, T>::empty(),
            r.keys() == Seq::<K>::empty(),
    {
        let r = Table { entries: Vec::new(), map: Ghost(Map::empty()) };
        assert(r.keys() =~= Seq::<K>::empty());
        r
    }

    pub fn len(&self) -> (r: usize)
        requires
            self.wf(),
        ensures
            r == self@.dom().len(),
            r == self.entries().len(),
    {
        proof {
            self.lemma_keys();
        }
        self.entries.len()
    }

    /// The entry at position `i`.
    pub fn entry(&self, i: usize) -> (r: (K, T))
        requires
            self.wf(),
            i < self.entries().len(),
        ensures
            r == self.entries()[i as int],
            self@.contains_key(r.0),
            self@[r.0] == r.1,
    {
        self.entries[i]
    }

    fn position(&self, k: &K) -> (r: Option<usize>)
        requires
            self.wf(),
        ensures
            match r {
                Some(i) => i < self.entries@.len() && self.entries@[i as int].0 == *k,
                None => !self@.contains_key(*k),
            },
    {
        let mut i: usize = 0;
        while i < self.entries.len()
            invariant
                0 <= i <= self.entries@.len(),
                forall|j: int| 0 <= j < i ==> self.entries@[j].0 != *k,
            decreases self.entries@.len() - i,
        {
            if self.entries[i].0.same(k) {
                return Some(i);
            }
            i = i + 1;
        }
        None
    }

    pub fn get(&self, k: &K) -> (r: Option<T>)
        requires
            self.wf(),
        ensures
            r == (if self@.contains_key(*k) {
                Some(self@[*k])
            } else {
                None::<T>
            }),
    {
        match self.position(k) {
            Some(i) => Some(self.entries[i].1),
            None => None,
        }
    }

    pub fn contains(&self, k: &K) -> (r: bool)
        requires
            self.wf(),
        ensures
            r == self@.contains_key(*k),
    {
        self.position(k).is_some()
    }

    /// Inserts or replaces the value of `k`; a new key goes last in the order.
    pub fn insert(&mut self, k: K, v: T)
        requires
            old(self).wf(),
        ensures
            final(self).wf(),
            final(self)@ == old(self)@.insert(k, v),
            old(self)@.contains_key(k) ==> final(self).keys() == old(self).keys(),
            !old(self)@.contains_key(k) ==> final(self).keys() == old(self).keys().push(k),
    {
        let ghost m0 = self.map@;
        match self.position(&k) {
            Some(i) => {
                self.entries.set(i, (k, v));
                self.map = Ghost(m0.insert(k, v));
                assert(self.keys() =~= old(self).keys());
                assert forall|kk: K| #[trigger] self.map@.contains_key(kk) implies exists|j: int|
                    0 <= j < self.entries@.len() && #[trigger] self.entries@[j].0 == kk by {
                    if kk != k {
                        let j = choose|j: int|
                            0 <= j < old(self).entries@.len() && #[trigger] old(self).entries@[j].0
                                == kk;
                        assert(self.entries@[j].0 == kk);
                    } else {
                        assert(self.entries@[i as int].0 == kk);
                    }
                }
            },
            None => {
                self.entries.push((k, v));
                self.map = Ghost(m0.insert(k, v));
                assert(self.keys() =~= old(self).keys().push(k));
                let n = self.entries.len() - 1;
                assert forall|kk: K| #[trigger] self.map@.contains_key(kk) implies exists|j: int|
                    0 <= j < self.entries@.len() && #[trigger] self.entries@[j].0 == kk by {
                    if kk != k {
                        let j = choose|j: int|
                            0 <= j < old(self).entries@.len() && #[trigger] old(self).entries@[j].0
                                == kk;
                        assert(self.entries@[j].0 == kk);
                    } else {
                        assert(self.entries@[n as int].0 == kk);
                    }
                }
            },
        }
    }

    /// Removes `k`; the other keys keep their order.
    pub fn remove(&mut self, k: &K)
        requires
            old(self).wf(),
        ensures
            final(self).wf(),
            final(self)@ == old(self)@.remove(*k),
            old(self)@.contains_key(*k) ==> exists|i: int|
                0 <= i < old(self).keys().len() && old(self).keys()[i] == *k && final(self).keys()
                    == old(self).keys().remove(i),
            !old(self)@.contains_key(*k) ==> final(self).keys() == old(self).keys(),
    {
        let ghost m0 = self.map@;
        match self.position(k) {
            Some(i) => {
                let ghost e0 = self.entries@;
                self.entries.remove(i);
                self.map = Ghost(m0.remove(*k));
                assert(self.keys() =~= old(self).keys().remove(i as int));
                assert(old(self).keys()[i as int] == *k);
                assert forall|a: int, b: int|
                    0 <= a < b < self.entries@.len() implies #[trigger] self.entries@[a].0
                    != #[trigger] self.entries@[b].0 by {
                    let a0 = if a < i {
                        a
                    } else {
                        a + 1
                    };
                    let b0 = if b < i {
                        b
                    } else {
                        b + 1
                    };
                    assert(e0[a0].0 != e0[b0].0);
                }
                assert forall|j: int| 0 <= j < self.entries@.len() implies self.map@.contains_key(
                    #[trigger] self.entries@[j].0,
                ) && self.map@[self.entries@[j].0] == self.entries@[j].1 by {
                    let j0 = if j < i {
                        j
                    } else {
                        j + 1
                    };
                    assert(self.entries@[j] == e0[j0]);
                    assert(e0[j0].0 != e0[i as int].0);
                }
                assert forall|kk: K| #[trigger] self.map@.contains_key(kk) implies exists|j: int|
                    0 <= j < self.entries@.len() && #[trigger] self.entries@[j].0 == kk by {
                    let j0 = choose|j: int| 0 <= j < e0.len() && #[trigger] e0[j].0 == kk;
                    assert(j0 != i);
                    if j0 < i {
                        assert(self.entries@[j0].0 == kk);
                    } else {
                        assert(self.entries@[j0 - 1].0 == kk);
                    }
                }
            },
            None => {
                assert(m0.remove(*k) =~= m0);
                assert(self.keys() =~= old(self).keys());
            },
        }
    }

    pub fn clear(&mut self)
        ensures
            final(self).wf(),
            final(self)@ == Map::<K, T>::empty(),
            final(self).keys() == Seq::<K>::empty(),
    {
        self.entries.clear();
        self.map = Ghost(Map::empty());
        assert(self.keys() =~= Seq::<K>::empty());
    }
}

} // verus!
