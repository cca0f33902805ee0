//! A map keyed by strings (addresses, denominations), kept as a list of entries with distinct
//! keys.

use vstd::prelude::*;

verus! {

pub struct StringMap<V> {
    pub entries: Vec<(String, V)>,
}

impl<V: View> StringMap<V> {
    /// No key occurs twice.
    pub open spec fn wf(&self) -> bool {
        forall|i: int, j: int|
            0 <= i < j < self.entries@.len() ==> self.entries@[i].0@ != self.entries@[j].0@
    }

    pub open spec fn has(&self, k: Seq<char>) -> bool {
        exists|i: int| 0 <= i < self.entries@.len() && #[trigger] self.entries@[i].0@ == k
    }

    pub open spec fn index_of(&self, k: Seq<char>) -> int {
        choose|i: int| 0 <= i < self.entries@.len() && #[trigger] self.entries@[i].0@ == k
    }

    /// The map from each key to the view of its value.
    pub open spec fn map(&self) -> Map<Seq<char>, V::V> {
        Map::new(|k: Seq<char>| self.has(k), |k: Seq<char>| self.entries@[self.index_of(k)].1@)
    }

    pub proof fn lemma_index(&self, i: int)
        requires
            self.wf(),
            0 <= i < self.entries@.len(),
        ensures
            self.map().contains_key(self.entries@[i].0@),
            self.map()[self.entries@[i].0@] == self.entries@[i].1@,
    {
        let k = self.entries@[i].0@;
        assert(self.has(k));
        let j = self.index_of(k);
        assert(self.entries@[j].0@ == k);
        if i < j {
            assert(self.entries@[i].0@ != self.entries@[j].0@);
        } else if j < i {
            assert(self.entries@[j].0@ != self.entries@[i].0@);
        }
    }

    /// A map whose entries agree one by one with those of a well-formed map, on the views of
    /// their keys and values, is well-formed and holds the same map.
    pub proof fn lemma_same_entries(&self, other: &Self)
        requires
            self.wf(),
            other.entries@.len() == self.entries@.len(),
            forall|i: int| 0 <= i < self.entries@.len() ==> #[trigger] other.entries@[i].0@ == self.entries@[i].0@
                && other.entries@[i].1@ == self.entries@[i].1@,
        ensures
            other.wf(),
            other.map() == self.map(),
    {
        assert forall|a: int, b: int| 0 <= a < b < other.entries@.len() implies
            other.entries@[a].0@ != other.entries@[b].0@ by {
            assert(other.entries@[a].0@ == self.entries@[a].0@);
            assert(other.entries@[b].0@ == self.entries@[b].0@);
        }
        assert forall|k: Seq<char>| #[trigger] other.map().contains_key(k) <==> self.map().contains_key(k) by {
            if other.has(k) {
                let j = choose|j: int| 0 <= j < other.entries@.len() && #[trigger] other.entries@[j].0@ == k;
                assert(self.entries@[j].0@ == k);
            }
            if self.has(k) {
                let j = choose|j: int| 0 <= j < self.entries@.len() && #[trigger] self.entries@[j].0@ == k;
                assert(other.entries@[j].0@ == k);
            }
        }
        assert forall|k: Seq<char>| #[trigger] other.map().contains_key(k) implies other.map()[k] == self.map()[k] by {
            let j = choose|j: int| 0 <= j < other.entries@.len() && #[trigger] other.entries@[j].0@ == k;
            other.lemma_index(j);
            self.lemma_index(j);
        }
        assert(other.map() =~= self.map());
    }

    pub fn new() -> (r: Self)
        ensures
            r.wf(),
            r.map() == Map::<Seq<char>, V::V>::empty(),
    {
        let r = StringMap { entries: Vec::new() };
        assert(r.map() =~= Map::<Seq<char>, V::V>::empty());
        r
    }

    /// The position of the entry of `key`, if there is one.
    pub fn find(&self, key: &String) -> (r: Option<usize>)
        requires
            self.wf(),
        ensures
            match r {
                Some(i) => i < self.entries@.len() && self.entries@[i as int].0@ == key@,
                None => !self.map().contains_key(key@),
            },
    {
        let mut i: usize = 0;
        while i < self.entries.len()
            invariant
                i <= self.entries@.len(),
                forall|j: int| 0 <= j < i ==> self.entries@[j].0@ != key@,
            decreases self.entries@.len() - i,
        {
            if self.entries[i].0 == *key {
                return Some(i);
            }
            i = i + 1;
        }
        None
    }

    pub fn get(&self, key: &String) -> (r: Option<&V>)
        requires
            self.wf(),
        ensures
            match r {
                Some(v) => self.map().contains_key(key@) && self.map()[key@] == v@,
                None => !self.map().contains_key(key@),
            },
    {
        match self.find(key) {
            Some(i) => {
                proof {
                    self.lemma_index(i as int);
                }
                Some(&self.entries[i].1)
            },
            None => None,
        }
    }

    /// Sets the value of `key`.
    pub fn insert(&mut self, key: String, value: V)
        requires
            old(self).wf(),
        ensures
            final(self).wf(),
            final(self).map() == old(self).map().insert(key@, value@),
    {
        let ghost k = key@;
        let ghost v = value@;
        let ghost old_map = self.map();
        match self.find(&key) {
            Some(i) => {
                self.entries.set(i, (key, value));
                proof {
                    assert forall|a: int, b: int| 0 <= a < b < self.entries@.len() implies
                        self.entries@[a].0@ != self.entries@[b].0@ by {
                        assert(old(self).entries@[a].0@ != old(self).entries@[b].0@);
                    }
                    assert forall|key2: Seq<char>| #[trigger] self.map().contains_key(key2) <==> old_map.insert(k, v).contains_key(key2) by {
                        if self.has(key2) {
                            let j = choose|j: int| 0 <= j < self.entries@.len() && #[trigger] self.entries@[j].0@ == key2;
                            if j != i {
                                assert(old(self).entries@[j].0@ == key2);
                            }
                        }
                        if old(self).has(key2) {
                            let j = choose|j: int| 0 <= j < old(self).entries@.len() && #[trigger] old(self).entries@[j].0@ == key2;
                            assert(self.entries@[j].0@ == key2);
                        }
                        if key2 == k {
                            assert(self.entries@[i as int].0@ == k);
                        }
                    }
                    assert forall|key2: Seq<char>| #[trigger] self.map().contains_key(key2) implies
                        self.map()[key2] == old_map.insert(k, v)[key2] by {
                        let j = choose|j: int| 0 <= j < self.entries@.len() && #[trigger] self.entries@[j].0@ == key2;
                        self.lemma_index(j);
                        if j != i {
                            old(self).lemma_index(j);
                        }
                    }
                    assert(self.map() =~= old_map.insert(k, v));
                }
            },
            None => {
                self.entries.push((key, value));
                proof {
                    let n = old(self).entries@.len() as int;
                    assert forall|a: int, b: int| 0 <= a < b < self.entries@.len() implies
                        self.entries@[a].0@ != self.entries@[b].0@ by {
                        if b == n {
                            if self.entries@[a].0@ == k {
                                assert(old(self).entries@[a].0@ == k);
                                old(self).lemma_index(a);
                            }
                        } else {
                            assert(old(self).entries@[a].0@ != old(self).entries@[b].0@);
                        }
                    }
                    assert forall|key2: Seq<char>| #[trigger] self.map().contains_key(key2) <==> old_map.insert(k, v).contains_key(key2) by {
                        if self.has(key2) {
                            let j = choose|j: int| 0 <= j < self.entries@.len() && #[trigger] self.entries@[j].0@ == key2;
                            if j != n {
                                assert(old(self).entries@[j].0@ == key2);
                            }
                        }
                        if old(self).has(key2) {
                            let j = choose|j: int| 0 <= j < old(self).entries@.len() && #[trigger] old(self).entries@[j].0@ == key2;
                            assert(self.entries@[j].0@ == key2);
                        }
                        if key2 == k {
                            assert(self.entries@[n].0@ == k);
                        }
                    }
                    assert forall|key2: Seq<char>| #[trigger] self.map().contains_key(key2) implies
                        self.map()[key2] == old_map.insert(k, v)[key2] by {
                        let j = choose|j: int| 0 <= j < self.entries@.len() && #[trigger] self.entries@[j].0@ == key2;
                        self.lemma_index(j);
                        if j != n {
                            old(self).lemma_index(j);
                        }
                    }
                    assert(self.map() =~= old_map.insert(k, v));
                }
            },
        }
    }

    /// Takes the value of `key` out of the map.
    pub fn take(&mut self, key: &String) -> (r: Option<V>)
        requires
            old(self).wf(),
        ensures
            final(self).wf(),
            final(self).map() == old(self).map().remove(key@),
            match r {
                Some(v) => old(self).map().contains_key(key@) && old(self).map()[key@] == v@,
                None => !old(self).map().contains_key(key@),
            },
    {
        let ghost k = key@;
        let ghost old_map = self.map();
        match self.find(key) {
            Some(i) => {
                proof {
                    self.lemma_index(i as int);
                }
                let (_, v) = self.entries.remove(i);
                proof {
                    let o = old(self).entries@;
                    assert forall|a: int| 0 <= a < self.entries@.len() implies
                        #[trigger] self.entries@[a] == if a < i { o[a] } else { o[a + 1] } by {}
                    assert forall|a: int, b: int| 0 <= a < b < self.entries@.len() implies
                        self.entries@[a].0@ != self.entries@[b].0@ by {
                        if a < i && b >= i {
                            assert(o[a].0@ != o[b + 1].0@);
                        } else if a >= i {
                            assert(o[a + 1].0@ != o[b + 1].0@);
                        } else {
                            assert(o[a].0@ != o[b].0@);
                        }
                    }
                    assert forall|key2: Seq<char>| #[trigger] self.map().contains_key(key2) <==> old_map.remove(k).contains_key(key2) by {
                        if self.has(key2) {
                            let j = choose|j: int| 0 <= j < self.entries@.len() && #[trigger] self.entries@[j].0@ == key2;
                            if j < i {
                                assert(o[j].0@ == key2);
                                assert(o[j].0@ != o[i as int].0@);
                            } else {
                                assert(o[j + 1].0@ == key2);
                                assert(o[i as int].0@ != o[j + 1].0@);
                            }
                        }
                        if old(self).has(key2) && key2 != k {
                            let j = choose|j: int| 0 <= j < o.len() && #[trigger] o[j].0@ == key2;
                            if j < i {
                                assert(self.entries@[j].0@ == key2);
                            } else {
                                assert(j != i);
                                assert(self.entries@[j - 1].0@ == key2);
                            }
                        }
                    }
                    assert forall|key2: Seq<char>| #[trigger] self.map().contains_key(key2) implies
                        self.map()[key2] == old_map.remove(k)[key2] by {
                        let j = choose|j: int| 0 <= j < self.entries@.len() && #[trigger] self.entries@[j].0@ == key2;
                        self.lemma_index(j);
                        if j < i {
                            old(self).lemma_index(j);
                        } else {
                            old(self).lemma_index(j + 1);
                        }
                    }
                    assert(self.map() =~= old_map.remove(k));
                }
                Some(v)
            },
            None => {
                proof {
                    assert(self.map() =~= old_map.remove(k));
                }
                None
            },
        }
    }
}

} // verus!
