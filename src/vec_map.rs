//! A map from string keys to values, kept as two parallel vectors.
use vstd::prelude::*;

verus! {

/// Keys and values side by side; each key appears once.
pub struct VecMap<V> {
    keys: Vec<String>,
    values: Vec<V>,
    model: Ghost<Map<Seq<char>, V>>,
}

impl<V> VecMap<V> {
    /// Keys are unique, `model` maps each key to the value beside it, and
    /// holds nothing else.
    pub closed spec fn well_formed(&self) -> bool {
        &&& self.keys.len() == self.values.len()
        &&& self.model@.dom().finite()
        &&& forall|i: int, j: int|
            0 <= i < j < self.keys.len() ==> #[trigger] self.keys[i]@ != #[trigger] self.keys[j]@
        &&& forall|i: int|
            0 <= i < self.keys.len() ==> #[trigger] self.model@.contains_key(self.keys[i]@)
                && self.model@[self.keys[i]@] == self.values[i]
        &&& forall|k: Seq<char>|
            #[trigger] self.model@.contains_key(k) ==> exists|i: int|
                0 <= i < self.keys.len() && self.keys[i]@ == k
    }

    /// What the map holds.
    pub closed spec fn model(&self) -> Map<Seq<char>, V> {
        self.model@
    }

    /// A well-formed map's contents are finite.
    pub proof fn lemma_finite(&self)
        requires
            self.well_formed(),
        ensures
            self.model().dom().finite(),
    {
    }

    /// An empty map.
    pub fn new() -> (r: VecMap<V>)
        ensures
            r.well_formed(),
            r.model() == Map::<Seq<char>, V>::empty(),
    {
        VecMap { keys: Vec::new(), values: Vec::new(), model: Ghost(Map::empty()) }
    }

    /// The index of key `k`, if present.
    fn position(&self, k: &String) -> (r: Option<usize>)
        requires
            self.well_formed(),
        ensures
            match r {
                Some(i) => i < self.keys.len() && self.keys[i as int]@ == k@,
                None => !self.model().contains_key(k@),
            },
    {
        let mut i: usize = 0;
        while i < self.keys.len()
            invariant
                i <= self.keys.len(),
                forall|j: int| 0 <= j < i ==> self.keys[j]@ != k@,
            decreases self.keys.len() - i,
        {
            if self.keys[i] == *k {
                return Some(i);
            }
            i = i + 1;
        }
        None
    }

    /// The value under `k`, if any.
    pub fn get(&self, k: &String) -> (r: Option<&V>)
        requires
            self.well_formed(),
        ensures
            match r {
                Some(v) => self.model().contains_key(k@) && *v == self.model()[k@],
                None => !self.model().contains_key(k@),
            },
    {
        match self.position(k) {
            Some(i) => {
                assert(self.model@.contains_key(self.keys[i as int]@));
                Some(&self.values[i])
            },
            None => None,
        }
    }

    /// Puts `v` under `k`, replacing what was there.
    pub fn insert(&mut self, k: String, v: V)
        requires
            old(self).well_formed(),
        ensures
            final(self).well_formed(),
            final(self).model() == old(self).model().insert(k@, v),
    {
        let ghost km = k@;
        let ghost vm = v;
        match self.position(&k) {
            Some(i) => {
                self.values.set(i, v);
                proof {
                    self.model@ = self.model@.insert(km, vm);
                    assert forall|j: int| 0 <= j < self.keys.len() implies #[trigger] self.model@.contains_key(self.keys[j]@)
                        && self.model@[self.keys[j]@] == self.values[j] by {
                        assert(self.keys[j] == old(self).keys[j]);
                        if j != i {
                            assert(old(self).keys[j]@ != old(self).keys[i as int]@);
                            assert(self.values[j] == old(self).values[j]);
                        } else {
                            assert(self.keys[j]@ == km);
                            assert(self.values[j] == vm);
                        }
                    }
                    assert forall|q: Seq<char>| #[trigger] self.model@.contains_key(q) implies exists|j: int|
                        0 <= j < self.keys.len() && self.keys[j]@ == q by {
                        if q == km {
                            assert(self.keys[i as int]@ == q);
                        } else {
                            assert(old(self).model@.contains_key(q));
                            let j = choose|j: int| 0 <= j < old(self).keys.len() && old(self).keys[j]@ == q;
                            assert(self.keys[j]@ == q);
                        }
                    }
                }
            },
            None => {
                self.keys.push(k);
                self.values.push(v);
                proof {
                    self.model@ = self.model@.insert(km, vm);
                    let n = self.keys.len() - 1;
                    assert(self.keys[n]@ == km);
                    assert forall|j: int| 0 <= j < self.keys.len() implies #[trigger] self.model@.contains_key(self.keys[j]@)
                        && self.model@[self.keys[j]@] == self.values[j] by {
                        if j < n {
                            assert(old(self).model@.contains_key(old(self).keys[j]@));
                        }
                    }
                    assert forall|q: Seq<char>| #[trigger] self.model@.contains_key(q) implies exists|j: int|
                        0 <= j < self.keys.len() && self.keys[j]@ == q by {
                        if q == km {
                            assert(self.keys[n]@ == q);
                        } else {
                            assert(old(self).model@.contains_key(q));
                            let j = choose|j: int| 0 <= j < old(self).keys.len() && old(self).keys[j]@ == q;
                            assert(self.keys[j]@ == q);
                        }
                    }
                    assert forall|a: int, b: int| 0 <= a < b < self.keys.len() implies #[trigger] self.keys[a]@ != #[trigger] self.keys[b]@ by {
                        if b == n {
                            assert(old(self).model@.contains_key(old(self).keys[a]@));
                        }
                    }
                }
            },
        }
        assert(self.model@ == old(self).model@.insert(km, vm));
    }
}

} // verus!
