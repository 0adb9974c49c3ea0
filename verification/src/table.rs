//! A table from keys to values, held as a list of entries in the order in
//! which the keys were first put in. No key occurs twice.

use crate::account::Key;
use vstd::prelude::*;

verus! {

/// A map from `K` to `V` that keeps its entries in the order of insertion.
pub struct Table<K, V> {
    keys: Vec<K>,
    values: Vec<V>,
}

impl<K: Key, V> Table<K, V> {
    /// The keys, in the order of insertion.
    pub closed spec fn keys(&self) -> Seq<K> {
        self.keys@
    }

    /// The values, each at the position of its key.
    pub closed spec fn values(&self) -> Seq<V> {
        self.values@
    }

    /// The table's invariant: one value for each key, and no key twice.
    pub open spec fn wf(&self) -> bool {
        &&& self.keys().len() == self.values().len()
        &&& self.keys().no_duplicates()
    }

    /// The table as a map.
    pub open spec fn view(&self) -> Map<K, V> {
        Map::new(|k: K| self.keys().contains(k), |k: K| self.values()[self.keys().index_of(k)])
    }

    /// An empty table.
    pub fn new() -> (table: Self)
        ensures
            table.wf(),
            table.keys() == Seq::<K>::empty(),
            table@ == Map::<K, V>::empty(),
    {
        let table = Table { keys: Vec::new(), values: Vec::new() };
        proof {
            assert(table@ =~= Map::<K, V>::empty());
        }
        table
    }

    /// The number of entries.
    pub fn len(&self) -> (count: usize)
        requires
            self.wf(),
        ensures
            count == self.keys().len(),
    {
        self.keys.len()
    }

    /// The position of `key` among the entries, if the table has that key.
    pub fn position(&self, key: &K) -> (found: Option<usize>)
        requires
            self.wf(),
        ensures
            match found {
                Some(at) => at < self.keys().len() && self.keys()[at as int] == *key && self@.dom().contains(*key)
                    && self@[*key] == self.values()[at as int],
                None => !self@.dom().contains(*key),
            },
    {
        let mut at: usize = 0;
        while at < self.keys.len()
            invariant
                self.wf(),
                at <= self.keys().len(),
                forall|i: int| 0 <= i < at ==> self.keys()[i] != *key,
            decreases self.keys().len() - at,
        {
            if self.keys[at].same(key) {
                proof {
                    self.lemma_entry(at as int);
                }
                return Some(at);
            }
            at = at + 1;
        }
        None
    }

    /// Whether the table has `key`.
    pub fn contains_key(&self, key: &K) -> (found: bool)
        requires
            self.wf(),
        ensures
            found == self@.dom().contains(*key),
    {
        self.position(key).is_some()
    }

    /// The value under `key`, if the table has that key.
    pub fn get(&self, key: &K) -> (found: Option<&V>)
        requires
            self.wf(),
        ensures
            match found {
                Some(value) => self@.dom().contains(*key) && *value == self@[*key],
                None => !self@.dom().contains(*key),
            },
    {
        match self.position(key) {
            Some(at) => Some(&self.values[at]),
            None => None,
        }
    }

    /// The value at position `at`.
    pub fn value_at(&self, at: usize) -> (value: &V)
        requires
            self.wf(),
            at < self.keys().len(),
        ensures
            *value == self.values()[at as int],
            *value == self@[self.keys()[at as int]],
    {
        proof {
            self.lemma_entry(at as int);
        }
        &self.values[at]
    }

    /// The value at position `at`, to be changed in place.
    pub fn value_at_mut(&mut self, at: usize) -> (value: &mut V)
        requires
            old(self).wf(),
            at < old(self).keys().len(),
        ensures
            *value == old(self).values()[at as int],
            final(self).wf(),
            final(self).keys() == old(self).keys(),
            final(self).values() == old(self).values().update(at as int, *final(value)),
            final(self)@ == old(self)@.insert(old(self).keys()[at as int], *final(value)),
    {
        proof {
            let key = self.keys()[at as int];
            assert forall|fin: V| #![auto]
                Map::new(
                    |k: K| self.keys().contains(k),
                    |k: K| self.values().update(at as int, fin)[self.keys().index_of(k)],
                ) =~= self@.insert(key, fin) by {
                let changed = Map::new(
                    |k: K| self.keys().contains(k),
                    |k: K| self.values().update(at as int, fin)[self.keys().index_of(k)],
                );
                assert forall|k: K| changed.dom().contains(k) implies changed[k] == self@.insert(key, fin)[k] by {
                    let i = self.keys().index_of(k);
                    if k == key {
                        assert(i == at);
                    }
                }
                assert(self.keys().contains(key));
            }
        }
        &mut self.values[at]
    }

    /// Puts a new key with its value behind the entries.
    pub fn push(&mut self, key: K, value: V)
        requires
            old(self).wf(),
            !old(self)@.dom().contains(key),
        ensures
            final(self).wf(),
            final(self).keys() == old(self).keys().push(key),
            final(self).values() == old(self).values().push(value),
            final(self)@ == old(self)@.insert(key, value),
    {
        let ghost before = *self;
        self.keys.push(key);
        self.values.push(value);
        proof {
            assert forall|i: int, j: int| 0 <= i < self.keys().len() && 0 <= j < self.keys().len() && i != j implies self.keys()[i]
                != self.keys()[j] by {
                if i < before.keys().len() {
                    assert(before.keys().contains(before.keys()[i]));
                }
                if j < before.keys().len() {
                    assert(before.keys().contains(before.keys()[j]));
                }
            }
            assert forall|k: K| self.keys().contains(k) <==> (before.keys().contains(k) || k == key) by {
                if self.keys().contains(k) {
                    let i = choose|i: int| 0 <= i < self.keys().len() && self.keys()[i] == k;
                    if i < before.keys().len() {
                        assert(before.keys()[i] == k);
                    }
                }
                if before.keys().contains(k) {
                    let i = choose|i: int| 0 <= i < before.keys().len() && before.keys()[i] == k;
                    assert(self.keys()[i] == k);
                }
                if k == key {
                    assert(self.keys()[before.keys().len() as int] == k);
                }
            }
            assert forall|k: K| before.keys().contains(k) implies self@[k] == before@[k] by {
                let i = before.keys().index_of(k);
                assert(self.keys()[i] == k);
                self.lemma_entry(i);
            }
            self.lemma_entry(before.keys().len() as int);
            assert(self@ =~= before@.insert(key, value));
        }
    }

    /// The entry at a position is the map's entry of the key at that position.
    pub proof fn lemma_entry(&self, at: int)
        requires
            self.wf(),
            0 <= at < self.keys().len(),
        ensures
            self@.dom().contains(self.keys()[at]),
            self@[self.keys()[at]] == self.values()[at],
            self.keys().index_of(self.keys()[at]) == at,
    {
        let key = self.keys()[at];
        assert(self.keys().contains(key));
        let i = self.keys().index_of(key);
        assert(self.keys()[i] == key);
    }
}

} // verus!
