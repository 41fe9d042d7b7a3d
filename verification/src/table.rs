//! A small map kept as an association list.
//!
//! Keys are compared through their deep view, so a table can be keyed by byte
//! strings and other heap values.  The abstract value of a table is a `Map`
//! from key models to value models.

use vstd::prelude::*;

verus! {

/// A key of a [`Table`]: a value whose model can be tested for equality.
pub trait Key: DeepView + Sized {
    /// Whether both keys have the same model.
    fn same(&self, other: &Self) -> (b: bool)
        ensures
            b == (self.deep_view() == other.deep_view()),
    ;
}

/// A finite map from `K` to `V`.
#[derive(Clone, PartialEq, Eq, Debug)]
pub struct Table<K, V> {
    keys: Vec<K>,
    vals: Vec<V>,
}

impl<K: Key, V: DeepView> Table<K, V> {
    /// The index at which `k` is stored, if any.
    spec fn slot(&self, k: K::V) -> int {
        choose|i: int| 0 <= i < self.keys@.len() && self.keys@[i].deep_view() == k
    }

    /// The map that the table stands for.
    pub closed spec fn model(&self) -> Map<K::V, V::V> {
        Map::new(
            |k: K::V| exists|i: int| 0 <= i < self.keys@.len() && self.keys@[i].deep_view() == k,
            |k: K::V| self.vals@[self.slot(k)].deep_view(),
        )
    }

    /// Every key is stored once, beside its value.
    pub closed spec fn wf(&self) -> bool {
        &&& self.keys@.len() == self.vals@.len()
        &&& forall|i: int, j: int|
            0 <= i < j < self.keys@.len() ==> self.keys@[i].deep_view() != self.keys@[j].deep_view()
    }

    proof fn lemma_slot(&self, i: int)
        requires
            self.wf(),
            0 <= i < self.keys@.len(),
        ensures
            self.model().contains_key(self.keys@[i].deep_view()),
            self.slot(self.keys@[i].deep_view()) == i,
            self.model()[self.keys@[i].deep_view()] == self.vals@[i].deep_view(),
    {
        let k = self.keys@[i].deep_view();
        let j = self.slot(k);
        assert(0 <= j < self.keys@.len() && self.keys@[j].deep_view() == k);
        if j < i {
            assert(self.keys@[j].deep_view() != self.keys@[i].deep_view());
        } else if i < j {
            assert(self.keys@[i].deep_view() != self.keys@[j].deep_view());
        }
    }

    /// The empty table.
    pub fn new() -> (t: Self)
        ensures
            t.wf(),
            t.model() == Map::<K::V, V::V>::empty(),
    {
        let t = Table { keys: Vec::new(), vals: Vec::new() };
        assert(t.model() =~= Map::<K::V, V::V>::empty());
        t
    }

    fn position(&self, k: &K) -> (r: Option<usize>)
        requires
            self.wf(),
        ensures
            match r {
                Some(i) => i < self.keys@.len() && self.keys@[i as int].deep_view() == k.deep_view(),
                None => !self.model().contains_key(k.deep_view()),
            },
    {
        let mut i: usize = 0;
        while i < self.keys.len()
            invariant
                i <= self.keys@.len(),
                forall|j: int| 0 <= j < i ==> self.keys@[j].deep_view() != k.deep_view(),
            decreases self.keys@.len() - i,
        {
            if self.keys[i].same(k) {
                return Some(i);
            }
            i += 1;
        }
        None
    }

    /// Whether `k` has a value.
    pub fn contains_key(&self, k: &K) -> (b: bool)
        requires
            self.wf(),
        ensures
            b == self.model().contains_key(k.deep_view()),
    {
        match self.position(k) {
            Some(i) => {
                proof {
                    self.lemma_slot(i as int);
                }
                true
            },
            None => false,
        }
    }

    /// The value stored under `k`.
    pub fn get(&self, k: &K) -> (r: Option<&V>)
        requires
            self.wf(),
        ensures
            match r {
                Some(v) => self.model().contains_key(k.deep_view()) && v.deep_view()
                    == self.model()[k.deep_view()],
                None => !self.model().contains_key(k.deep_view()),
            },
    {
        match self.position(k) {
            Some(i) => {
                proof {
                    self.lemma_slot(i as int);
                }
                Some(&self.vals[i])
            },
            None => None,
        }
    }

    /// Stores `v` under `k`, replacing what was stored there.
    pub fn insert(&mut self, k: K, v: V)
        requires
            old(self).wf(),
        ensures
            final(self).wf(),
            final(self).model() == old(self).model().insert(k.deep_view(), v.deep_view()),
    {
        let ghost before = *self;
        match self.position(&k) {
            Some(i) => {
                self.vals.set(i, v);
                proof {
                    let after = *self;
                    assert(after.wf());
                    assert forall|q: K::V| #[trigger]
                        after.model().contains_key(q) == before.model().insert(
                            k.deep_view(),
                            v.deep_view(),
                        ).contains_key(q) by {
                        before.lemma_slot(i as int);
                    }
                    assert forall|q: K::V| #[trigger]
                        after.model().contains_key(q) implies after.model()[q] == before.model().insert(
                        k.deep_view(),
                        v.deep_view(),
                    )[q] by {
                        let j = after.slot(q);
                        after.lemma_slot(j);
                        before.lemma_slot(j);
                    }
                    assert(after.model() =~= before.model().insert(k.deep_view(), v.deep_view()));
                }
            },
            None => {
                self.keys.push(k);
                self.vals.push(v);
                proof {
                    let after = *self;
                    let n = before.keys@.len() as int;
                    assert(after.wf()) by {
                        assert forall|i: int, j: int| 0 <= i < j < after.keys@.len() implies after.keys@[i].deep_view()
                            != after.keys@[j].deep_view() by {
                            if j == n {
                                assert(before.keys@[i].deep_view() != k.deep_view());
                            }
                        }
                    }
                    after.lemma_slot(n);
                    assert forall|q: K::V| #[trigger]
                        after.model().contains_key(q) == before.model().insert(
                            k.deep_view(),
                            v.deep_view(),
                        ).contains_key(q) by {
                        if before.model().contains_key(q) {
                            let j = before.slot(q);
                            assert(after.keys@[j].deep_view() == q);
                        }
                        if after.model().contains_key(q) && q != k.deep_view() {
                            let j = after.slot(q);
                            assert(before.keys@[j].deep_view() == q);
                        }
                    }
                    assert forall|q: K::V| #[trigger]
                        after.model().contains_key(q) implies after.model()[q] == before.model().insert(
                        k.deep_view(),
                        v.deep_view(),
                    )[q] by {
                        let j = after.slot(q);
                        after.lemma_slot(j);
                        if j < n {
                            before.lemma_slot(j);
                        }
                    }
                    assert(after.model() =~= before.model().insert(k.deep_view(), v.deep_view()));
                }
            },
        }
    }

    /// Forgets `k` and hands out what was stored under it.
    pub fn remove(&mut self, k: &K) -> (r: Option<V>)
        requires
            old(self).wf(),
        ensures
            final(self).wf(),
            final(self).model() == old(self).model().remove(k.deep_view()),
            match r {
                Some(v) => old(self).model().contains_key(k.deep_view()) && v.deep_view()
                    == old(self).model()[k.deep_view()],
                None => !old(self).model().contains_key(k.deep_view()),
            },
    {
        let ghost before = *self;
        match self.position(k) {
            Some(i) => {
                let _dropped = self.keys.remove(i);
                let v = self.vals.remove(i);
                proof {
                    let after = *self;
                    let n = i as int;
                    before.lemma_slot(n);
                    assert(after.wf()) by {
                        assert forall|a: int, b: int| 0 <= a < b < after.keys@.len() implies after.keys@[a].deep_view()
                            != after.keys@[b].deep_view() by {
                            let a0 = if a < n { a } else { a + 1 };
                            let b0 = if b < n { b } else { b + 1 };
                            assert(after.keys@[a] == before.keys@[a0]);
                            assert(after.keys@[b] == before.keys@[b0]);
                        }
                    }
                    assert forall|q: K::V| #[trigger]
                        after.model().contains_key(q) == before.model().remove(
                            k.deep_view(),
                        ).contains_key(q) by {
                        if after.model().contains_key(q) {
                            let j = after.slot(q);
                            let j0 = if j < n { j } else { j + 1 };
                            assert(after.keys@[j] == before.keys@[j0]);
                            assert(before.keys@[j0].deep_view() == q);
                            if j0 < n {
                                assert(before.keys@[j0].deep_view() != before.keys@[n].deep_view());
                            } else {
                                assert(before.keys@[n].deep_view() != before.keys@[j0].deep_view());
                            }
                        }
                        if before.model().contains_key(q) && q != k.deep_view() {
                            let j0 = before.slot(q);
                            let j = if j0 < n { j0 } else { j0 - 1 };
                            assert(after.keys@[j] == before.keys@[j0]);
                        }
                    }
                    assert forall|q: K::V| #[trigger]
                        after.model().contains_key(q) implies after.model()[q] == before.model().remove(
                        k.deep_view(),
                    )[q] by {
                        let j = after.slot(q);
                        let j0 = if j < n { j } else { j + 1 };
                        after.lemma_slot(j);
                        assert(after.keys@[j] == before.keys@[j0]);
                        assert(after.vals@[j] == before.vals@[j0]);
                        before.lemma_slot(j0);
                    }
                    assert(after.model() =~= before.model().remove(k.deep_view()));
                }
                Some(v)
            },
            None => {
                assert(self.model() =~= before.model().remove(k.deep_view()));
                None
            },
        }
    }
}

} // verus!
