//! A map that keeps its entries in the order in which their keys first came.
use crate::ids::Key;
use vstd::prelude::*;

verus! {

/// Entries under keys no two of which are the same.
///
/// The view is the map from what the keys stand for to the entries. [`Table::keys`] is the order
/// in which the table is walked: a key that comes anew goes to the end, and a replaced entry stays
/// where it was.
pub struct Table<K: Key, V> {
    entries: Vec<(K, V)>,
}

/// A table with nothing but keys: a set that keeps its order.
pub type KeySet<K> = Table<K, ()>;

/// The walk over `keys` after `id` has come: an old key keeps its place, a new one goes to the
/// end.
pub open spec fn with_key<I>(keys: Seq<I>, id: I) -> Seq<I> {
    if keys.contains(id) {
        keys
    } else {
        keys.push(id)
    }
}

/// The walk over `keys` after `id` has gone.
pub open spec fn without_key<I>(keys: Seq<I>, id: I) -> Seq<I> {
    if keys.contains(id) {
        keys.remove(keys.index_of(id))
    } else {
        keys
    }
}

impl<K: Key, V> Table<K, V> {
    /// The keys, in the order in which the table is walked.
    pub closed spec fn keys(&self) -> Seq<K::Id> {
        self.entries@.map_values(|e: (K, V)| e.0.id())
    }

    /// What the table holds.
    pub closed spec fn view(&self) -> Map<K::Id, V> {
        Map::new(
            |id: K::Id| self.keys().contains(id),
            |id: K::Id| self.entries@[self.keys().index_of(id)].1,
        )
    }

    /// No two entries have the same key.
    pub closed spec fn wf(&self) -> bool {
        self.keys().no_duplicates()
    }

    /// The walk meets every key of the map once and no other.
    pub proof fn keys_enumerate(&self)
        requires
            self.wf(),
        ensures
            self.keys().no_duplicates(),
            self.keys().to_set() == self@.dom(),
            forall|id: K::Id| #[trigger] self.keys().contains(id) <==> self@.contains_key(id),
            self@.dom().finite(),
            self@.dom().len() == self.keys().len(),
    {
        self.keys().unique_seq_to_set();
        assert(self.keys().to_set() =~= self@.dom());
        vstd::seq_lib::seq_to_set_is_finite(self.keys());
    }

    /// The entry at a place of the walk is the entry of the key at that place.
    proof fn entry_at(&self, i: int)
        requires
            self.wf(),
            0 <= i < self.entries@.len(),
        ensures
            self.keys().len() == self.entries@.len(),
            self.keys()[i] == self.entries@[i].0.id(),
            self@.contains_key(self.keys()[i]),
            self@[self.keys()[i]] == self.entries@[i].1,
    {
        let id = self.keys()[i];
        assert(self.keys().contains(id));
        assert(self.keys()[self.keys().index_of(id)] == id);
    }

    /// A table with nothing in it.
    pub fn new() -> (r: Self)
        ensures
            r.wf(),
            r.keys() == Seq::<K::Id>::empty(),
            r@ == Map::<K::Id, V>::empty(),
    {
        let r = Table { entries: Vec::new() };
        assert(r.keys() =~= Seq::empty());
        assert(r@ =~= Map::empty());
        r
    }

    /// The number of entries.
    pub fn len(&self) -> (n: usize)
        requires
            self.wf(),
        ensures
            n == self.keys().len(),
            n == self@.dom().len(),
    {
        proof {
            self.keys_enumerate();
        }
        self.entries.len()
    }

    /// Where the walk meets `key`.
    fn find(&self, key: &K) -> (r: Option<usize>)
        requires
            self.wf(),
        ensures
            match r {
                Some(i) => i < self.entries@.len() && self.keys()[i as int] == key.id()
                    && self@.contains_key(key.id()) && self@[key.id()] == self.entries@[i as int].1,
                None => !self@.contains_key(key.id()) && !self.keys().contains(key.id()),
            },
    {
        let mut i: usize = 0;
        while i < self.entries.len()
            invariant
                self.wf(),
                i <= self.entries@.len(),
                forall|j: int| 0 <= j < i ==> self.keys()[j] != key.id(),
            decreases self.entries@.len() - i,
        {
            if self.entries[i].0.same(key) {
                proof {
                    self.entry_at(i as int);
                }
                return Some(i);
            }
            i = i + 1;
        }
        None
    }

    /// Whether there is an entry under `key`.
    pub fn contains_key(&self, key: &K) -> (r: bool)
        requires
            self.wf(),
        ensures
            r == self@.contains_key(key.id()),
    {
        self.find(key).is_some()
    }

    /// The entry under `key`.
    pub fn get(&self, key: &K) -> (r: Option<&V>)
        requires
            self.wf(),
        ensures
            match r {
                Some(v) => self@.contains_key(key.id()) && *v == self@[key.id()],
                None => !self@.contains_key(key.id()),
            },
    {
        match self.find(key) {
            Some(i) => Some(&self.entries[i].1),
            None => None,
        }
    }

    /// The key at a place of the walk.
    pub fn key_at(&self, i: usize) -> (r: &K)
        requires
            self.wf(),
            i < self.keys().len(),
        ensures
            r.id() == self.keys()[i as int],
            self@.contains_key(r.id()),
    {
        proof {
            self.entry_at(i as int);
        }
        &self.entries[i].0
    }

    /// The entry at a place of the walk.
    pub fn value_at(&self, i: usize) -> (r: &V)
        requires
            self.wf(),
            i < self.keys().len(),
        ensures
            *r == self@[self.keys()[i as int]],
    {
        proof {
            self.entry_at(i as int);
        }
        &self.entries[i].1
    }

    /// How changing the entry at one place changes the table.
    proof fn updated(before: Self, after: Self, i: int)
        requires
            before.wf(),
            0 <= i < before.entries@.len(),
            after.entries@ == before.entries@.update(
                i,
                (before.entries@[i].0, after.entries@[i].1),
            ),
        ensures
            after.wf(),
            after.keys() == before.keys(),
            after@ == before@.insert(before.keys()[i], after.entries@[i].1),
    {
        assert(after.keys() =~= before.keys());
        before.entry_at(i);
        after.entry_at(i);
        assert(after@ =~= before@.insert(before.keys()[i], after.entries@[i].1)) by {
            let expected = before@.insert(before.keys()[i], after.entries@[i].1);
            assert forall|id: K::Id| #[trigger] before@.contains_key(id) implies after@[id]
                == expected[id] by {
                let j = before.keys().index_of(id);
                assert(before.keys()[j] == id);
                before.entry_at(j);
                after.entry_at(j);
            }
        }
    }

    /// The entry at a place of the walk, to be changed.
    pub fn value_at_mut(&mut self, i: usize) -> (r: &mut V)
        requires
            old(self).wf(),
            i < old(self).keys().len(),
        ensures
            *r == old(self)@[old(self).keys()[i as int]],
            final(self).wf(),
            final(self).keys() == old(self).keys(),
            final(self)@ == old(self)@.insert(old(self).keys()[i as int], *final(r)),
    {
        proof {
            self.entry_at(i as int);
            assert forall|t: Self|
                t.entries@ == self.entries@.update(
                    i as int,
                    (self.entries@[i as int].0, t.entries@[i as int].1),
                ) implies t.wf() && #[trigger] t.keys() == self.keys() && t@ == self@.insert(
                self.keys()[i as int],
                t.entries@[i as int].1,
            ) by {
                Self::updated(*self, t, i as int);
            }
        }
        &mut self.entries[i].1
    }

    /// The entry under `key`, to be changed.
    pub fn get_mut(&mut self, key: &K) -> (r: Option<&mut V>)
        requires
            old(self).wf(),
        ensures
            final(self).wf(),
            final(self).keys() == old(self).keys(),
            match r {
                Some(v) => old(self)@.contains_key(key.id()) && *v == old(self)@[key.id()]
                    && final(self)@ == old(self)@.insert(key.id(), *final(v)),
                None => !old(self)@.contains_key(key.id()) && final(self)@ == old(self)@,
            },
    {
        match self.find(key) {
            Some(i) => Some(self.value_at_mut(i)),
            None => None,
        }
    }

    /// Puts `value` at the end, under a key that is not there yet.
    fn append(&mut self, key: K, value: V)
        requires
            old(self).wf(),
            !old(self).keys().contains(key.id()),
        ensures
            final(self).wf(),
            final(self).keys() == old(self).keys().push(key.id()),
            final(self)@ == old(self)@.insert(key.id(), value),
    {
        let ghost before = *self;
        self.entries.push((key, value));
        proof {
            let last = before.entries@.len() as int;
            assert(self.keys() =~= before.keys().push(key.id()));
            self.entry_at(last);
            assert forall|id: K::Id| self@.contains_key(id) == before@.insert(
                key.id(),
                value,
            ).contains_key(id) by {
                if before.keys().contains(id) {
                    let j = before.keys().index_of(id);
                    assert(self.keys()[j] == id);
                }
                if id == key.id() {
                    assert(self.keys()[last] == id);
                }
            }
            assert forall|id: K::Id| #[trigger] before@.contains_key(id) implies self@[id]
                == before@[id] by {
                let j = before.keys().index_of(id);
                assert(before.keys()[j] == id);
                before.entry_at(j);
                self.entry_at(j);
            }
            assert(self@ =~= before@.insert(key.id(), value));
        }
    }

    /// Puts `value` under `key`, in place of what was there.
    pub fn insert(&mut self, key: K, value: V)
        requires
            old(self).wf(),
        ensures
            final(self).wf(),
            final(self).keys() == with_key(old(self).keys(), key.id()),
            final(self)@ == old(self)@.insert(key.id(), value),
    {
        match self.find(&key) {
            Some(i) => {
                let place = self.value_at_mut(i);
                *place = value;
            },
            None => {
                self.append(key, value);
            },
        }
    }

    /// The entry under `key`, to be changed; where there is none, `value` is put there first.
    pub fn get_or_insert_mut(&mut self, key: K, value: V) -> (r: &mut V)
        requires
            old(self).wf(),
        ensures
            final(self).wf(),
            final(self).keys() == with_key(old(self).keys(), key.id()),
            *r == (if old(self)@.contains_key(key.id()) {
                old(self)@[key.id()]
            } else {
                value
            }),
            final(self)@ == old(self)@.insert(key.id(), *final(r)),
    {
        match self.find(&key) {
            Some(i) => self.value_at_mut(i),
            None => {
                let ghost before = *self;
                let end: usize = self.entries.len();
                self.append(key, value);
                assert(self.keys()[end as int] == key.id());
                assert forall|w: V| #[trigger]
                    self@.insert(key.id(), w) == before@.insert(key.id(), w) by {
                    assert(self@.insert(key.id(), w) =~= before@.insert(key.id(), w));
                }
                self.value_at_mut(end)
            },
        }
    }

    /// Takes the entry at a place of the walk out.
    pub fn remove_at(&mut self, i: usize) -> (r: (K, V))
        requires
            old(self).wf(),
            i < old(self).keys().len(),
        ensures
            final(self).wf(),
            final(self).keys() == old(self).keys().remove(i as int),
            final(self)@ == old(self)@.remove(old(self).keys()[i as int]),
            r.0.id() == old(self).keys()[i as int],
            r.1 == old(self)@[r.0.id()],
    {
        let ghost before = *self;
        proof {
            before.entry_at(i as int);
        }
        let gone = self.entries.remove(i);
        proof {
            let id = before.keys()[i as int];
            assert(self.keys() =~= before.keys().remove(i as int));
            assert forall|k: int| 0 <= k < self.keys().len() implies #[trigger] self.keys()[k]
                != id && self@[self.keys()[k]] == before@[self.keys()[k]] && before@.contains_key(
                self.keys()[k],
            ) by {
                let j = if k < i { k } else { k + 1 };
                assert(self.keys()[k] == before.keys()[j]);
                before.entry_at(j);
                self.entry_at(k);
            }
            assert forall|k: K::Id| self@.contains_key(k) == before@.remove(id).contains_key(k) by {
                if self.keys().contains(k) {
                    assert(self.keys()[self.keys().index_of(k)] == k);
                }
                if before.keys().contains(k) && k != id {
                    let j = before.keys().index_of(k);
                    assert(self.keys()[if j < i { j } else { j - 1 }] == k);
                }
            }
            assert forall|k: K::Id| #[trigger] self@.contains_key(k) implies self@[k]
                == before@.remove(id)[k] by {
                assert(self.keys()[self.keys().index_of(k)] == k);
            }
            assert(self@ =~= before@.remove(id));
        }
        gone
    }

    /// Takes the entry under `key` out.
    pub fn remove(&mut self, key: &K) -> (r: Option<V>)
        requires
            old(self).wf(),
        ensures
            final(self).wf(),
            final(self).keys() == without_key(old(self).keys(), key.id()),
            final(self)@ == old(self)@.remove(key.id()),
            match r {
                Some(v) => old(self)@.contains_key(key.id()) && v == old(self)@[key.id()],
                None => !old(self)@.contains_key(key.id()),
            },
    {
        match self.find(key) {
            Some(i) => {
                proof {
                    assert(self.keys().contains(key.id()));
                    assert(self.keys()[self.keys().index_of(key.id())] == key.id());
                }
                let (_, value) = self.remove_at(i);
                Some(value)
            },
            None => {
                assert(self@ =~= self@.remove(key.id()));
                None
            },
        }
    }
}

} // verus!
