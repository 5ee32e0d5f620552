use vstd::prelude::*;

verus! {

/// Sparse association map from packed `u64` keys to copyable values.
/// Entries are kept with pairwise-distinct keys, so the store is a
/// faithful representation of the mathematical map in its view.
#[verifier::reject_recursive_types(V)]
pub struct SparseMap<V: Copy> {
    entries: Vec<(u64, V)>,
}

impl<V: Copy> SparseMap<V> {
    /// The keys of distinct entries differ.
    pub closed spec fn inv(self) -> bool {
        forall|i: int, j: int|
            0 <= i < j < self.entries@.len() ==> (#[trigger] self.entries@[i]).0 != (
            #[trigger] self.entries@[j]).0
    }

    /// Number of stored entries; drives termination of draining loops.
    pub closed spec fn size(self) -> nat {
        self.entries@.len()
    }

    spec fn contains_k(self, k: u64) -> bool {
        exists|i: int| 0 <= i < self.entries@.len() && (#[trigger] self.entries@[i]).0 == k
    }

    spec fn index_of(self, k: u64) -> int {
        choose|i: int| 0 <= i < self.entries@.len() && (#[trigger] self.entries@[i]).0 == k
    }

    pub closed spec fn view(self) -> Map<u64, V> {
        Map::new(
            |k: u64| self.contains_k(k),
            |k: u64| self.entries@[self.index_of(k)].1,
        )
    }

    /// Under the distinct-keys invariant, an entry with key `k` at index `i`
    /// is the one the view reads.
    proof fn lemma_found(self, i: int, k: u64)
        requires
            self.inv(),
            0 <= i < self.entries@.len(),
            self.entries@[i].0 == k,
        ensures
            self.contains_k(k),
            self.index_of(k) == i,
            self.view().contains_key(k),
            self.view()[k] == self.entries@[i].1,
    {
        assert(self.contains_k(k));
        let j = self.index_of(k);
        assert(0 <= j < self.entries@.len() && self.entries@[j].0 == k);
        if i < j {
            assert(self.entries@[i].0 != self.entries@[j].0);
        } else if j < i {
            assert(self.entries@[j].0 != self.entries@[i].0);
        }
    }

    proof fn lemma_absent(self, k: u64)
        requires
            !self.contains_k(k),
        ensures
            !self.view().contains_key(k),
    {
    }

    pub fn new() -> (r: Self)
        ensures
            r.inv(),
            r.view() == Map::<u64, V>::empty(),
            r.size() == 0,
    {
        let r = SparseMap { entries: Vec::new() };
        proof {
            assert(r.view() =~= Map::<u64, V>::empty());
        }
        r
    }

    /// Index of the entry holding `k`, if any.
    fn find(&self, k: u64) -> (r: Option<usize>)
        requires
            self.inv(),
        ensures
            match r {
                Some(i) => i < self.entries@.len() && self.entries@[i as int].0 == k,
                None => !self.contains_k(k),
            },
    {
        let mut i: usize = 0;
        while i < self.entries.len()
            invariant
                i <= self.entries@.len(),
                forall|j: int| 0 <= j < i ==> (#[trigger] self.entries@[j]).0 != k,
            decreases self.entries@.len() - i,
        {
            if self.entries[i].0 == k {
                return Some(i);
            }
            i = i + 1;
        }
        None
    }

    pub fn get(&self, k: u64) -> (r: Option<V>)
        requires
            self.inv(),
        ensures
            r == if self.view().contains_key(k) {
                Some(self.view()[k])
            } else {
                None::<V>
            },
    {
        match self.find(k) {
            Some(i) => {
                proof {
                    self.lemma_found(i as int, k);
                }
                Some(self.entries[i].1)
            },
            None => {
                proof {
                    self.lemma_absent(k);
                }
                None
            },
        }
    }

    pub fn remove(&mut self, k: u64) -> (r: Option<V>)
        requires
            old(self).inv(),
        ensures
            final(self).inv(),
            final(self).view() == old(self).view().remove(k),
            r == if old(self).view().contains_key(k) {
                Some(old(self).view()[k])
            } else {
                None::<V>
            },
            final(self).size() == if old(self).view().contains_key(k) {
                (old(self).size() - 1) as nat
            } else {
                old(self).size()
            },
    {
        match self.find(k) {
            Some(i) => {
                proof {
                    old(self).lemma_found(i as int, k);
                }
                let e = self.entries.remove(i);
                proof {
                    self.lemma_after_removal(*old(self), i as int, k);
                }
                Some(e.1)
            },
            None => {
                proof {
                    self.lemma_absent(k);
                    assert(self.view() =~= self.view().remove(k));
                }
                None
            },
        }
    }

    /// After deleting the entry at index `i`, whose key was `k`, the view
    /// is the old view without `k`.
    proof fn lemma_after_removal(self, prior: Self, i: int, k: u64)
        requires
            prior.inv(),
            0 <= i < prior.entries@.len(),
            prior.entries@[i].0 == k,
            self.entries@ == prior.entries@.remove(i),
        ensures
            self.inv(),
            self.view() == prior.view().remove(k),
            self.size() == prior.size() - 1,
    {
        let olds = prior.entries@;
        let news = self.entries@;
        olds.remove_ensures(i);
        assert forall|j: int| 0 <= j < news.len() implies #[trigger] news[j] == (if j < i {
            olds[j]
        } else {
            olds[j + 1]
        }) by {
        }
        assert(self.inv()) by {
            assert forall|a: int, b: int|
                0 <= a < b < news.len() implies (#[trigger] news[a]).0 != (#[trigger] news[b]).0 by {
                let a2: int = if a < i { a } else { a + 1 };
                let b2: int = if b < i { b } else { b + 1 };
                assert(olds[a2].0 != olds[b2].0);
            }
        }
        assert forall|k2: u64| #[trigger] self.contains_k(k2) implies prior.contains_k(k2) && k2 != k
            && self.view()[k2] == prior.view()[k2] by {
            let a = choose|a: int| 0 <= a < news.len() && (#[trigger] news[a]).0 == k2;
            let a2: int = if a < i { a } else { a + 1 };
            assert(olds[a2].0 == k2);
            if k2 == k {
                if a2 < i {
                    assert(olds[a2].0 != olds[i].0);
                } else {
                    assert(olds[i].0 != olds[a2].0);
                }
            }
            prior.lemma_found(a2, k2);
            self.lemma_found(a, k2);
        }
        assert forall|k2: u64| prior.contains_k(k2) && k2 != k implies #[trigger] self.contains_k(
            k2,
        ) by {
            let a2 = choose|a2: int| 0 <= a2 < olds.len() && (#[trigger] olds[a2]).0 == k2;
            if a2 < i {
                assert(news[a2].0 == k2);
            } else {
                assert(a2 != i);
                assert(news[a2 - 1].0 == k2);
            }
        }
        assert(self.view() =~= prior.view().remove(k));
    }

    pub fn insert(&mut self, k: u64, v: V)
        requires
            old(self).inv(),
        ensures
            final(self).inv(),
            final(self).view() == old(self).view().insert(k, v),
            final(self).size() <= old(self).size() + 1,
    {
        let _prev = self.remove(k);
        let ghost mid: SparseMap<V> = *self;
        self.entries.push((k, v));
        proof {
            let n = mid.entries@.len() as int;
            assert(self.entries@ == mid.entries@.push((k, v)));
            assert(!mid.view().contains_key(k));
            assert forall|j: int| 0 <= j < n implies (#[trigger] self.entries@[j]).0 != k by {
                assert(self.entries@[j] == mid.entries@[j]);
                if mid.entries@[j].0 == k {
                    mid.lemma_found(j, k);
                }
            }
            assert(self.entries@[n].0 == k);
            assert(self.inv()) by {
                assert forall|a: int, b: int|
                    0 <= a < b < self.entries@.len() implies (#[trigger] self.entries@[a]).0 != (
                #[trigger] self.entries@[b]).0 by {
                    if b < n {
                        assert(mid.entries@[a].0 != mid.entries@[b].0);
                    } else {
                        assert(self.entries@[a].0 != k);
                    }
                }
            }
            self.lemma_found(n, k);
            assert forall|k2: u64| #[trigger] self.contains_k(k2) && k2 != k implies
                mid.contains_k(k2) && self.view()[k2] == mid.view()[k2] by {
                let a = choose|a: int|
                    0 <= a < self.entries@.len() && (#[trigger] self.entries@[a]).0 == k2;
                assert(a != n);
                assert(mid.entries@[a].0 == k2);
                mid.lemma_found(a, k2);
                self.lemma_found(a, k2);
            }
            assert forall|k2: u64| #[trigger] mid.contains_k(k2) implies self.contains_k(k2) by {
                let a = choose|a: int|
                    0 <= a < mid.entries@.len() && (#[trigger] mid.entries@[a]).0 == k2;
                assert(self.entries@[a].0 == k2);
            }
            assert forall|k2: u64| k2 != k implies #[trigger] self.view().contains_key(k2)
                == old(self).view().contains_key(k2) && (self.view().contains_key(k2)
                ==> self.view()[k2] == old(self).view()[k2]) by {
                assert(self.view().contains_key(k2) == self.contains_k(k2));
                assert(mid.view().contains_key(k2) == mid.contains_k(k2));
                if self.contains_k(k2) {
                    assert(mid.contains_k(k2));
                }
                if mid.contains_k(k2) {
                    assert(self.contains_k(k2));
                }
                assert(mid.view() == old(self).view().remove(k));
            }
            assert(self.view() =~= old(self).view().insert(k, v));
        }
    }

    /// Hand out one entry, removing it; `None` only on an empty map.
    pub fn pop_entry(&mut self) -> (r: Option<(u64, V)>)
        requires
            old(self).inv(),
        ensures
            final(self).inv(),
            match r {
                Some(e) => old(self).view().contains_key(e.0) && old(self).view()[e.0] == e.1
                    && final(self).view() == old(self).view().remove(e.0) && final(self).size()
                    == old(self).size() - 1,
                None => final(self).view() == old(self).view() && final(self).size() == old(
                    self,
                ).size() && old(self).view() == Map::<u64, V>::empty() && old(self).size() == 0,
            },
    {
        match self.entries.pop() {
            Some(e) => {
                proof {
                    let n = old(self).entries@.len() as int;
                    old(self).lemma_found(n - 1, e.0);
                    assert(self.entries@ =~= old(self).entries@.remove(n - 1));
                    self.lemma_after_removal(*old(self), n - 1, e.0);
                }
                Some(e)
            },
            None => {
                proof {
                    assert(old(self).view() =~= Map::<u64, V>::empty());
                }
                None
            },
        }
    }

    pub fn clear(&mut self)
        ensures
            final(self).inv(),
            final(self).view() == Map::<u64, V>::empty(),
            final(self).size() == 0,
    {
        self.entries.clear();
        proof {
            assert(self.view() =~= Map::<u64, V>::empty());
        }
    }
}

} // verus!
