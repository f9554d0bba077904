//! Maps from texts, in the order of their keys.

use vstd::prelude::*;
use vstd::string::*;

use crate::json::{
    lemma_before_irreflexive, lemma_before_total, lemma_before_transitive, lemma_ordered_distinct,
    ordered,
};
use crate::text::{before, is_before, same};

verus! {

/// A map from texts to values, in the order of its keys.
pub struct SortedMap<V> {
    entries: Vec<(String, V)>,
}

impl<V> SortedMap<V> {
    /// The keys, in their order.
    pub closed spec fn keys(self) -> Seq<Seq<char>> {
        self.entries@.map_values(|e: (String, V)| e.0@)
    }

    /// The values, in the order of their keys.
    pub closed spec fn values(self) -> Seq<V> {
        self.entries@.map_values(|e: (String, V)| e.1)
    }

    /// Every key stands once, in order, and has its value.
    pub open spec fn wf(self) -> bool {
        ordered(self.keys()) && self.values().len() == self.keys().len()
    }

    /// The map.
    pub open spec fn map(self) -> Map<Seq<char>, V> {
        Map::new(
            |k: Seq<char>| self.keys().contains(k),
            |k: Seq<char>| self.values()[self.keys().index_of(k)],
        )
    }

    proof fn lemma_entry(self, i: int)
        requires
            self.wf(),
            0 <= i < self.keys().len(),
        ensures
            self.map().contains_key(self.keys()[i]),
            self.map()[self.keys()[i]] == self.values()[i],
    {
        lemma_ordered_distinct(self.keys());
        assert(self.keys().contains(self.keys()[i]));
        let j = self.keys().index_of(self.keys()[i]);
        assert(i == j);
    }

    /// The map without entries.
    pub fn new() -> (r: SortedMap<V>)
        ensures
            r.wf(),
            r.map() == Map::<Seq<char>, V>::empty(),
            r.keys().len() == 0,
    {
        let r = SortedMap { entries: Vec::new() };
        assert(r.map() =~= Map::<Seq<char>, V>::empty());
        r
    }

    /// How many entries there are.
    pub fn len(&self) -> (r: usize)
        ensures
            r == self.keys().len(),
    {
        self.entries.len()
    }

    /// The key at a position.
    pub fn key(&self, i: usize) -> (r: &str)
        requires
            i < self.keys().len(),
        ensures
            r@ == self.keys()[i as int],
    {
        self.entries[i].0.as_str()
    }

    /// The value at a position.
    pub fn value(&self, i: usize) -> (r: &V)
        requires
            self.wf(),
            i < self.keys().len(),
        ensures
            *r == self.values()[i as int],
            self.map().contains_key(self.keys()[i as int]),
            self.map()[self.keys()[i as int]] == *r,
    {
        proof {
            self.lemma_entry(i as int);
        }
        &self.entries[i].1
    }

    /// The position of the first key that is not before a text.
    pub fn position(&self, key: &str) -> (r: usize)
        requires
            self.wf(),
        ensures
            r <= self.keys().len(),
            forall|i: int| 0 <= i < r ==> before(#[trigger] self.keys()[i], key@),
            forall|i: int| r <= i < self.keys().len() ==> !before(#[trigger] self.keys()[i], key@),
    {
        let mut i: usize = 0;
        while i < self.entries.len() && is_before(self.entries[i].0.as_str(), key)
            invariant
                i <= self.entries@.len(),
                self.keys().len() == self.entries@.len(),
                forall|j: int| 0 <= j < i ==> before(#[trigger] self.keys()[j], key@),
            decreases self.entries@.len() - i,
        {
            assert(self.keys()[i as int] == self.entries@[i as int].0@);
            i = i + 1;
        }
        proof {
            if i < self.entries.len() {
                assert(self.keys()[i as int] == self.entries@[i as int].0@);
                assert forall|j: int| i <= j < self.keys().len() implies !before(
                    #[trigger] self.keys()[j],
                    key@,
                ) by {
                    if j > i && before(self.keys()[j], key@) {
                        assert(before(self.keys()[i as int], self.keys()[j]));
                        lemma_before_transitive(self.keys()[i as int], self.keys()[j], key@);
                    }
                }
            }
        }
        i
    }

    /// The value under a key.
    pub fn get(&self, key: &str) -> (r: Option<&V>)
        requires
            self.wf(),
        ensures
            match r {
                Some(v) => self.map().contains_key(key@) && self.map()[key@] == *v,
                None => !self.map().contains_key(key@),
            },
    {
        let i = self.position(key);
        if i < self.entries.len() && same(self.entries[i].0.as_str(), key) {
            proof {
                assert(self.keys()[i as int] == self.entries@[i as int].0@);
                self.lemma_entry(i as int);
            }
            return Some(&self.entries[i].1);
        }
        proof {
            self.lemma_absent(key@, i as int);
        }
        None
    }

    proof fn lemma_absent(self, key: Seq<char>, i: int)
        requires
            self.wf(),
            0 <= i <= self.keys().len(),
            forall|j: int| 0 <= j < i ==> before(#[trigger] self.keys()[j], key),
            i < self.keys().len() ==> !before(self.keys()[i], key) && self.keys()[i] != key,
        ensures
            !self.keys().contains(key),
            forall|j: int| i <= j < self.keys().len() ==> before(key, #[trigger] self.keys()[j]),
    {
        assert forall|j: int| i <= j < self.keys().len() implies before(
            key,
            #[trigger] self.keys()[j],
        ) by {
            lemma_before_total(key, self.keys()[i]);
            if j > i {
                assert(before(self.keys()[i], self.keys()[j]));
                lemma_before_transitive(key, self.keys()[i], self.keys()[j]);
            }
        }
        if self.keys().contains(key) {
            lemma_before_irreflexive(key);
        }
    }

    /// Sets the value under a key.
    pub fn insert(&mut self, key: &str, v: V)
        requires
            old(self).wf(),
        ensures
            final(self).wf(),
            final(self).map() == old(self).map().insert(key@, v),
    {
        let ghost was = *self;
        let i = self.position(key);
        if i < self.entries.len() && same(self.entries[i].0.as_str(), key) {
            self.entries.set(i, (key.to_owned(), v));
            proof {
                assert(was.keys()[i as int] == was.entries@[i as int].0@);
                assert(self.keys() =~= was.keys());
                assert forall|k: Seq<char>| #[trigger] self.map().contains_key(k) implies self.map()[k]
                    == was.map().insert(key@, v)[k] by {
                    let j = self.keys().index_of(k);
                    assert(self.keys()[j] == k);
                    self.lemma_entry(j);
                    was.lemma_entry(j);
                    if k == key@ {
                        lemma_ordered_distinct(self.keys());
                        assert(j == i);
                    } else {
                        assert(j != i);
                    }
                }
                was.lemma_entry(i as int);
                assert(self.map() =~= was.map().insert(key@, v));
            }
            return;
        }
        proof {
            if i < self.entries.len() {
                assert(was.keys()[i as int] == was.entries@[i as int].0@);
            }
            was.lemma_absent(key@, i as int);
        }
        self.entries.insert(i, (key.to_owned(), v));
        proof {
            let ks = self.keys();
            assert(ks =~= was.keys().insert(i as int, key@));
            assert(self.values() =~= was.values().insert(i as int, v));
            assert forall|a: int, b: int| 0 <= a < b < ks.len() implies before(
                #[trigger] ks[a],
                #[trigger] ks[b],
            ) by {
                let wa = if a < i { a } else { a - 1 };
                let wb = if b < i { b } else { b - 1 };
                if a == i {
                    assert(ks[b] == was.keys()[wb]);
                } else if b == i {
                    assert(ks[a] == was.keys()[wa]);
                } else {
                    assert(ks[a] == was.keys()[wa] && ks[b] == was.keys()[wb]);
                }
            }
            assert forall|k: Seq<char>| #[trigger]
                self.map().contains_key(k) <==> was.map().insert(key@, v).contains_key(k) by {
                if was.keys().contains(k) {
                    let j = was.keys().index_of(k);
                    if j < i {
                        assert(ks[j] == k);
                    } else {
                        assert(ks[j + 1] == k);
                    }
                }
                assert(ks[i as int] == key@);
                if ks.contains(k) {
                    let j = ks.index_of(k);
                    if j < i {
                        assert(was.keys()[j] == k);
                    } else if j > i {
                        assert(was.keys()[j - 1] == k);
                    }
                }
            }
            assert forall|k: Seq<char>| #[trigger] self.map().contains_key(k) implies self.map()[k]
                == was.map().insert(key@, v)[k] by {
                let j = ks.index_of(k);
                assert(ks[j] == k);
                self.lemma_entry(j);
                if j < i {
                    was.lemma_entry(j);
                    assert(was.keys()[j] == k);
                    assert(was.keys().contains(k));
                } else if j > i {
                    was.lemma_entry(j - 1);
                    assert(was.keys()[j - 1] == k);
                    assert(was.keys().contains(k));
                }
            }
            assert(self.map() =~= was.map().insert(key@, v));
        }
    }

    /// Takes the value under a key out.
    pub fn remove(&mut self, key: &str) -> (r: Option<V>)
        requires
            old(self).wf(),
        ensures
            final(self).wf(),
            final(self).map() == old(self).map().remove(key@),
            match r {
                Some(v) => old(self).map().contains_key(key@) && old(self).map()[key@] == v,
                None => !old(self).map().contains_key(key@),
            },
    {
        let ghost was = *self;
        let i = self.position(key);
        if !(i < self.entries.len() && same(self.entries[i].0.as_str(), key)) {
            proof {
                if i < self.entries.len() {
                    assert(was.keys()[i as int] == was.entries@[i as int].0@);
                }
                was.lemma_absent(key@, i as int);
                assert(was.map().remove(key@) =~= was.map());
            }
            return None;
        }
        let (_, v) = self.entries.remove(i);
        proof {
            assert(was.keys()[i as int] == was.entries@[i as int].0@);
            was.lemma_entry(i as int);
            lemma_ordered_distinct(was.keys());
            let ks = self.keys();
            assert(ks =~= was.keys().remove(i as int));
            assert(self.values() =~= was.values().remove(i as int));
            assert forall|a: int, b: int| 0 <= a < b < ks.len() implies before(
                #[trigger] ks[a],
                #[trigger] ks[b],
            ) by {
                let wa = if a < i { a } else { a + 1 };
                let wb = if b < i { b } else { b + 1 };
                assert(ks[a] == was.keys()[wa] && ks[b] == was.keys()[wb]);
            }
            assert forall|k: Seq<char>| #[trigger]
                self.map().contains_key(k) <==> was.map().remove(key@).contains_key(k) by {
                if was.keys().contains(k) && k != key@ {
                    let j = was.keys().index_of(k);
                    if j < i {
                        assert(ks[j] == k);
                    } else {
                        assert(ks[j - 1] == k);
                    }
                }
                if ks.contains(k) {
                    let j = ks.index_of(k);
                    if j < i {
                        assert(was.keys()[j] == k);
                    } else {
                        assert(was.keys()[j + 1] == k);
                    }
                }
            }
            assert forall|k: Seq<char>| #[trigger] self.map().contains_key(k) implies self.map()[k]
                == was.map().remove(key@)[k] by {
                let j = ks.index_of(k);
                assert(ks[j] == k);
                self.lemma_entry(j);
                if j < i {
                    was.lemma_entry(j);
                    assert(was.keys()[j] == k);
                    assert(was.keys().contains(k));
                } else {
                    was.lemma_entry(j + 1);
                    assert(was.keys()[j + 1] == k);
                    assert(was.keys().contains(k));
                }
            }
            assert(self.map() =~= was.map().remove(key@));
        }
        Some(v)
    }
}

} // verus!
