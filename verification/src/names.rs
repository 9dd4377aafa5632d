//! Maps from names to values.

use vstd::prelude::*;

verus! {

/// A map from names to values: a list of entries whose names are distinct.
pub struct NameMap<V> {
    entries: Vec<(String, V)>,
}

impl<V> NameMap<V> {
    #[verifier::type_invariant]
    spec fn distinct(&self) -> bool {
        forall|i: int, j: int|
            0 <= i < j < self.entries.len() ==> #[trigger] self.entries@[i].0@
                != #[trigger] self.entries@[j].0@
    }

    /// Whether some entry has the name `k`.
    pub closed spec fn has(&self, k: Seq<char>) -> bool {
        exists|i: int| 0 <= i < self.entries.len() && #[trigger] self.entries@[i].0@ == k
    }

    /// The position of the entry named `k`.
    closed spec fn slot(&self, k: Seq<char>) -> int {
        choose|i: int| 0 <= i < self.entries.len() && #[trigger] self.entries@[i].0@ == k
    }
}

impl<V: View> View for NameMap<V> {
    type V = Map<Seq<char>, V::V>;

    closed spec fn view(&self) -> Map<Seq<char>, V::V> {
        Map::new(|k: Seq<char>| self.has(k), |k: Seq<char>| self.entries@[self.slot(k)].1@)
    }
}

impl<V: View> NameMap<V> {
    /// An empty map.
    pub fn new() -> (m: Self)
        ensures
            m@ == Map::<Seq<char>, V::V>::empty(),
    {
        let m = NameMap { entries: Vec::new() };
        assert(m@ =~= Map::<Seq<char>, V::V>::empty());
        m
    }

    /// The position of the entry named `key`, if there is one.
    fn find(&self, key: &String) -> (r: Option<usize>)
        ensures
            match r {
                Some(i) => i < self.entries.len() && self.entries@[i as int].0@ == key@,
                None => !self.has(key@),
            },
    {
        let mut i: usize = 0;
        while i < self.entries.len()
            invariant
                i <= self.entries.len(),
                forall|j: int| 0 <= j < i ==> #[trigger] self.entries@[j].0@ != key@,
            decreases self.entries.len() - i,
        {
            if self.entries[i].0 == *key {
                return Some(i);
            }
            i += 1;
        }
        None
    }

    proof fn lemma_slot(&self, i: int)
        requires
            self.distinct(),
            0 <= i < self.entries.len(),
        ensures
            self.has(self.entries@[i].0@),
            self.slot(self.entries@[i].0@) == i,
            self@.contains_key(self.entries@[i].0@),
            self@[self.entries@[i].0@] == self.entries@[i].1@,
    {
        let k = self.entries@[i].0@;
        assert(self.has(k));
        let j = self.slot(k);
        if j != i {
            if j < i {
                assert(self.entries@[j].0@ != self.entries@[i].0@);
            } else {
                assert(self.entries@[i].0@ != self.entries@[j].0@);
            }
        }
    }

    /// The value stored under `key`.
    pub fn get(&self, key: &String) -> (r: Option<&V>)
        ensures
            match r {
                Some(v) => self@.contains_key(key@) && v@ == self@[key@],
                None => !self@.contains_key(key@),
            },
    {
        match self.find(key) {
            Some(i) => {
                proof {
                    use_type_invariant(self);
                    self.lemma_slot(i as int);
                }
                Some(&self.entries[i].1)
            },
            None => None,
        }
    }

    /// Whether a value is stored under `key`.
    pub fn contains_key(&self, key: &String) -> (r: bool)
        ensures
            r == self@.contains_key(key@),
    {
        match self.find(key) {
            Some(i) => {
                proof {
                    use_type_invariant(self);
                    self.lemma_slot(i as int);
                }
                true
            },
            None => false,
        }
    }

    /// Stores `value` under `key`, replacing what was stored there.
    pub fn insert(&mut self, key: String, value: V)
        ensures
            final(self)@ == old(self)@.insert(key@, value@),
    {
        proof {
            use_type_invariant(&*self);
        }
        let ghost k = key@;
        let ghost v = value@;
        let ghost before = *self;
        let found = self.find(&key);
        let mut es: Vec<(String, V)> = Vec::new();
        std::mem::swap(&mut es, &mut self.entries);
        match found {
            Some(i) => {
                es.set(i, (key, value));
                self.entries = es;
                proof {
                    assert forall|k2: Seq<char>| #[trigger] self.has(k2) == before.has(k2) by {
                        if before.has(k2) {
                            let j = before.slot(k2);
                            if j == i {
                                assert(self.entries@[i as int].0@ == k2);
                            } else {
                                assert(self.entries@[j].0@ == k2);
                            }
                        }
                        if self.has(k2) {
                            let j = self.slot(k2);
                            if j == i {
                                assert(before.entries@[i as int].0@ == k2);
                            } else {
                                assert(before.entries@[j].0@ == k2);
                            }
                        }
                    }
                    assert forall|k2: Seq<char>| self.has(k2) implies #[trigger] self@[k2]
                        == before@.insert(k, v)[k2] by {
                        let j = self.slot(k2);
                        self.lemma_slot(j);
                        if k2 != k {
                            before.lemma_slot(j);
                        }
                    }
                    assert(self@ =~= before@.insert(k, v));
                }
            },
            None => {
                es.push((key, value));
                self.entries = es;
                proof {
                    let n = before.entries.len() as int;
                    assert forall|k2: Seq<char>| #[trigger] self.has(k2) == (before.has(k2) || k2
                        == k) by {
                        if before.has(k2) {
                            let j = before.slot(k2);
                            assert(self.entries@[j].0@ == k2);
                        }
                        if k2 == k {
                            assert(self.entries@[n].0@ == k2);
                        }
                        if self.has(k2) && k2 != k {
                            let j = self.slot(k2);
                            assert(before.entries@[j].0@ == k2);
                        }
                    }
                    assert forall|k2: Seq<char>| self.has(k2) implies #[trigger] self@[k2]
                        == before@.insert(k, v)[k2] by {
                        let j = self.slot(k2);
                        self.lemma_slot(j);
                        if k2 != k {
                            before.lemma_slot(j);
                        }
                    }
                    assert(self@ =~= before@.insert(k, v));
                }
            },
        }
    }
}


/// Values that can be copied with their view kept.
pub trait DeepCopy: View + Sized {
    fn deep_copy(&self) -> (r: Self)
        ensures
            r@ == self@,
    ;
}

impl<V: DeepCopy> NameMap<V> {
    /// A copy of the map, entry by entry.
    pub fn copy(&self) -> (r: Self)
        ensures
            r@ == self@,
    {
        proof {
            use_type_invariant(self);
        }
        let mut es: Vec<(String, V)> = Vec::new();
        let mut i: usize = 0;
        while i < self.entries.len()
            invariant
                i <= self.entries.len(),
                es.len() == i,
                forall|j: int|
                    0 <= j < i ==> #[trigger] es@[j].0@ == self.entries@[j].0@ && es@[j].1@
                        == self.entries@[j].1@,
            decreases self.entries.len() - i,
        {
            let k = self.entries[i].0.clone();
            let v = self.entries[i].1.deep_copy();
            es.push((k, v));
            i += 1;
        }
        let r = NameMap { entries: es };
        proof {
            assert forall|k: Seq<char>| #[trigger] r.has(k) == self.has(k) by {
                if r.has(k) {
                    let j = r.slot(k);
                    assert(self.entries@[j].0@ == k);
                }
                if self.has(k) {
                    let j = self.slot(k);
                    assert(r.entries@[j].0@ == k);
                }
            }
            assert forall|k: Seq<char>| r.has(k) implies #[trigger] r@[k] == self@[k] by {
                let j = self.slot(k);
                self.lemma_slot(j);
                assert(r.entries@[j].0@ == k);
                r.lemma_slot(j);
            }
            assert(r@ =~= self@);
        }
        r
    }
}

} // verus!
