use vstd::prelude::*;

verus! {

/// A key of an association table: equality decidable on the view.
pub trait TableKey: View + Sized {
    /// Equality of the keys' mathematical views.
    fn key_eq(&self, other: &Self) -> (r: bool)
        ensures
            r == (self@ == other@),
    ;
}

/// An association table with unique keys, viewed as a `Map` from key views
/// to value views. This is the engine's model of one named sub-database
/// of the key-value substrate.
pub struct Table<K: TableKey, V: View> {
    entries: Vec<(K, V)>,
}

impl<K: TableKey, V: View> View for Table<K, V> {
    type V = Map<<K as View>::V, <V as View>::V>;

    closed spec fn view(&self) -> Map<<K as View>::V, <V as View>::V> {
        Map::new(
            |k: <K as View>::V| self.dom_has(k),
            |k: <K as View>::V| self.entries@[self.idx_of(k)].1@,
        )
    }
}

impl<K: TableKey, V: View> Table<K, V> {
    /// The stored (key, value) pairs, in insertion order.
    pub closed spec fn pairs(&self) -> Seq<(K, V)> {
        self.entries@
    }

    /// Some stored pair has this key view.
    pub closed spec fn dom_has(&self, k: <K as View>::V) -> bool {
        exists|i: int| 0 <= i < self.entries@.len() && (#[trigger] self.entries@[i]).0@ == k
    }

    /// Index of the pair with this key view (meaningful when unique).
    pub closed spec fn idx_of(&self, k: <K as View>::V) -> int {
        choose|i: int| 0 <= i < self.entries@.len() && (#[trigger] self.entries@[i]).0@ == k
    }

    /// Keys are pairwise distinct.
    pub closed spec fn wf(&self) -> bool {
        forall|i: int, j: int|
            0 <= i < j < self.entries@.len() ==> (#[trigger] self.entries@[i]).0@ != (
            #[trigger] self.entries@[j]).0@
    }

    proof fn lemma_found_at(&self, i: int)
        requires
            self.wf(),
            0 <= i < self.pairs().len(),
        ensures
            self.dom_has(self.pairs()[i].0@),
            self.idx_of(self.pairs()[i].0@) == i,
            self@.contains_key(self.pairs()[i].0@),
            self@[self.pairs()[i].0@] == self.pairs()[i].1@,
    {
        let k = self.pairs()[i].0@;
        assert(self.dom_has(k));
        let j = self.idx_of(k);
        assert(0 <= j < self.entries@.len() && self.entries@[j].0@ == k);
        if i != j {
            assert(self.entries@[i].0@ != self.entries@[j].0@);
        }
    }

    /// The pairs and the map view agree.
    pub proof fn lemma_pairs_map(&self)
        requires
            self.wf(),
        ensures
            forall|i: int|
                0 <= i < self.pairs().len() ==> self@.contains_key(
                    (#[trigger] self.pairs()[i]).0@,
                ) && self@[self.pairs()[i].0@] == self.pairs()[i].1@,
            forall|k: <K as View>::V|
                self@.contains_key(k) ==> exists|i: int|
                    0 <= i < self.pairs().len() && (#[trigger] self.pairs()[i]).0@ == k,
    {
        assert forall|i: int| 0 <= i < self.pairs().len() implies self@.contains_key(
            (#[trigger] self.pairs()[i]).0@,
        ) && self@[self.pairs()[i].0@] == self.pairs()[i].1@ by {
            self.lemma_found_at(i);
        }
    }

    /// Number of stored pairs.
    pub fn len(&self) -> (r: usize)
        ensures
            r == self.pairs().len(),
    {
        self.entries.len()
    }

    /// An empty table.
    pub fn new() -> (r: Self)
        ensures
            r.wf(),
            r@ == Map::<<K as View>::V, <V as View>::V>::empty(),
            r.pairs().len() == 0,
    {
        let r = Table { entries: Vec::new() };
        proof {
            assert(r@ =~= Map::<<K as View>::V, <V as View>::V>::empty());
        }
        r
    }

    /// Look a key up.
    pub fn get(&self, key: &K) -> (r: Option<&V>)
        requires
            self.wf(),
        ensures
            match r {
                Some(v) => self@.contains_key(key@) && v@ == self@[key@],
                None => !self@.contains_key(key@),
            },
    {
        let n: usize = self.entries.len();
        let mut i: usize = 0;
        while i < n
            invariant
                n == self.entries@.len(),
                0 <= i <= n,
                self.wf(),
                forall|j: int| 0 <= j < i ==> (#[trigger] self.entries@[j]).0@ != key@,
            decreases n - i,
        {
            if self.entries[i].0.key_eq(key) {
                proof {
                    self.lemma_found_at(i as int);
                }
                return Some(&self.entries[i].1);
            }
            i = i + 1;
        }
        proof {
            assert(!self.dom_has(key@));
        }
        None
    }

    /// Insert or overwrite.
    pub fn insert(&mut self, key: K, value: V)
        requires
            old(self).wf(),
        ensures
            final(self).wf(),
            final(self)@ == old(self)@.insert(key@, value@),
            final(self).pairs().len() <= old(self).pairs().len() + 1,
    {
        let ghost pre = *self;
        let n: usize = self.entries.len();
        let mut i: usize = 0;
        while i < n
            invariant
                pre == *old(self),
                *self == pre,
                n == self.entries@.len(),
                0 <= i <= n,
                self.wf(),
                forall|j: int| 0 <= j < i ==> (#[trigger] self.entries@[j]).0@ != key@,
            decreases n - i,
        {
            if self.entries[i].0.key_eq(&key) {
                proof {
                    self.lemma_found_at(i as int);
                }
                let ghost k0 = self.entries@[i as int].0@;
                self.entries.set(i, (key, value));
                proof {
                    assert(self.wf());
                    assert forall|k: <K as View>::V| true implies #[trigger] self@.contains_key(k)
                        == pre@.insert(k0, value@).contains_key(k) by {
                        if k == k0 {
                            self.lemma_found_at(i as int);
                        } else {
                            if pre.dom_has(k) {
                                let j = pre.idx_of(k);
                                assert(self.entries@[j].0@ == k);
                                assert(self.dom_has(k));
                            }
                            if self.dom_has(k) {
                                let j = self.idx_of(k);
                                assert(pre.entries@[j].0@ == k);
                                assert(pre.dom_has(k));
                            }
                        }
                    }
                    assert forall|k: <K as View>::V| self@.contains_key(k) implies self@[k]
                        == pre@.insert(k0, value@)[k] by {
                        if k == k0 {
                            self.lemma_found_at(i as int);
                        } else {
                            let j = self.idx_of(k);
                            assert(0 <= j < self.entries@.len() && self.entries@[j].0@ == k);
                            assert(j != i);
                            self.lemma_found_at(j);
                            pre.lemma_found_at(j);
                        }
                    }
                    assert(self@ =~= pre@.insert(k0, value@));
                }
                return ;
            }
            i = i + 1;
        }
        proof {
            assert(!pre.dom_has(key@));
        }
        self.entries.push((key, value));
        proof {
            assert forall|k: <K as View>::V| true implies #[trigger] self@.contains_key(k)
                == pre@.insert(key@, value@).contains_key(k) by {
                if k == key@ {
                    self.lemma_found_at(n as int);
                } else {
                    if pre.dom_has(k) {
                        let j = pre.idx_of(k);
                        assert(self.entries@[j].0@ == k);
                        assert(self.dom_has(k));
                    }
                    if self.dom_has(k) {
                        let j = self.idx_of(k);
                        assert(j != n);
                        assert(pre.entries@[j].0@ == k);
                        assert(pre.dom_has(k));
                    }
                }
            }
            assert forall|k: <K as View>::V| self@.contains_key(k) implies self@[k] == pre@.insert(
                key@,
                value@,
            )[k] by {
                if k == key@ {
                    self.lemma_found_at(n as int);
                } else {
                    let j = self.idx_of(k);
                    assert(j != n);
                    self.lemma_found_at(j);
                    pre.lemma_found_at(j);
                }
            }
            assert(self@ =~= pre@.insert(key@, value@));
        }
    }

    /// Remove a key; report whether it was present.
    pub fn remove(&mut self, key: &K) -> (r: bool)
        requires
            old(self).wf(),
        ensures
            final(self).wf(),
            final(self)@ == old(self)@.remove(key@),
            r == old(self)@.contains_key(key@),
            final(self).pairs().len() <= old(self).pairs().len(),
    {
        let ghost pre = *self;
        let n: usize = self.entries.len();
        let mut i: usize = 0;
        while i < n
            invariant
                pre == *old(self),
                *self == pre,
                n == self.entries@.len(),
                0 <= i <= n,
                self.wf(),
                forall|j: int| 0 <= j < i ==> (#[trigger] self.entries@[j]).0@ != key@,
            decreases n - i,
        {
            if self.entries[i].0.key_eq(key) {
                proof {
                    self.lemma_found_at(i as int);
                }
                self.entries.remove(i);
                proof {
                    assert forall|a: int, b: int|
                        0 <= a < b < self.entries@.len() implies (
                    #[trigger] self.entries@[a]).0@ != (#[trigger] self.entries@[b]).0@ by {
                        let a0 = if a < i { a } else { a + 1 };
                        let b0 = if b < i { b } else { b + 1 };
                        assert(self.entries@[a] == pre.entries@[a0]);
                        assert(self.entries@[b] == pre.entries@[b0]);
                    }
                    assert forall|k: <K as View>::V| true implies #[trigger] self@.contains_key(k)
                        == pre@.remove(key@).contains_key(k) by {
                        if k == key@ {
                            if self.dom_has(k) {
                                let j = self.idx_of(k);
                                let j0 = if j < i { j } else { j + 1 };
                                assert(pre.entries@[j0].0@ == k);
                                pre.lemma_found_at(j0);
                                assert(j0 != i);
                                pre.lemma_found_at(i as int);
                            }
                        } else {
                            if pre.dom_has(k) {
                                let j = pre.idx_of(k);
                                assert(j != i);
                                let j1 = if j < i { j } else { j - 1 };
                                assert(self.entries@[j1].0@ == k);
                                assert(self.dom_has(k));
                            }
                            if self.dom_has(k) {
                                let j = self.idx_of(k);
                                let j0 = if j < i { j } else { j + 1 };
                                assert(pre.entries@[j0].0@ == k);
                                assert(pre.dom_has(k));
                            }
                        }
                    }
                    assert forall|k: <K as View>::V| self@.contains_key(k) implies self@[k]
                        == pre@.remove(key@)[k] by {
                        let j = self.idx_of(k);
                        assert(0 <= j < self.entries@.len() && self.entries@[j].0@ == k);
                        let j0 = if j < i { j } else { j + 1 };
                        assert(pre.entries@[j0].0@ == k);
                        self.lemma_found_at(j);
                        pre.lemma_found_at(j0);
                    }
                    assert(self@ =~= pre@.remove(key@));
                }
                return true;
            }
            i = i + 1;
        }
        proof {
            assert(!pre.dom_has(key@));
            assert(self@ =~= pre@.remove(key@));
        }
        false
    }

    /// Remove everything.
    pub fn clear(&mut self)
        ensures
            final(self).wf(),
            final(self)@ == Map::<<K as View>::V, <V as View>::V>::empty(),
            final(self).pairs().len() == 0,
    {
        self.entries = Vec::new();
        proof {
            assert(self@ =~= Map::<<K as View>::V, <V as View>::V>::empty());
        }
    }

    /// Borrow the stored pairs.
    pub fn entries(&self) -> (r: &Vec<(K, V)>)
        ensures
            r@ == self.pairs(),
    {
        &self.entries
    }
}

} // verus!
