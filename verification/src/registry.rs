//! A registry: records kept under string identities, one record per identity.
//!
//! The registry owns its records and every change goes through its methods,
//! so a caller that holds it exclusively sees each read-modify-write as one
//! step. Its model is the map [`Registry::items`]; [`Registry::keys`] gives
//! the order in which a scan by index meets the identities.

use vstd::prelude::*;

verus! {

/// One record with its identity.
struct Entry<T> {
    key: String,
    value: T,
}

/// Records under string identities, no identity twice.
pub struct Registry<T> {
    entries: Vec<Entry<T>>,
}

impl<T> Registry<T> {
    /// The identities, in the order in which `key_at` and `value_at` meet them.
    pub closed spec fn keys(&self) -> Seq<Seq<char>> {
        Seq::new(self.entries.len() as nat, |i: int| self.entries[i].key@)
    }

    /// The records, in the order of `keys`.
    pub closed spec fn values(&self) -> Seq<T> {
        Seq::new(self.entries.len() as nat, |i: int| self.entries[i].value)
    }

    /// The invariant of the representation: no identity occurs twice.
    pub closed spec fn wf(&self) -> bool {
        self.keys().no_duplicates()
    }

    /// Where `key` stands in `keys`, for a key that is there.
    pub open spec fn slot(&self, key: Seq<char>) -> int {
        choose|i: int| 0 <= i < self.keys().len() && self.keys()[i] == key
    }

    /// The registry as a map from identity to record.
    pub open spec fn items(&self) -> Map<Seq<char>, T> {
        Map::new(|k: Seq<char>| self.keys().contains(k), |k: Seq<char>| self.values()[self.slot(k)])
    }

    /// How the order and the map belong together.
    pub proof fn lemma_entries(&self)
        requires
            self.wf(),
        ensures
            self.keys().len() == self.values().len(),
            self.keys().no_duplicates(),
            self.items().dom() == self.keys().to_set(),
            self.items().dom().finite(),
            self.items().len() == self.keys().len(),
            forall|i: int|
                0 <= i < self.keys().len() ==> self.items().contains_key(#[trigger] self.keys()[i])
                    && self.items()[self.keys()[i]] == self.values()[i],
    {
        vstd::seq_lib::seq_to_set_is_finite(self.keys());
        self.keys().unique_seq_to_set();
    }

    /// In a well-formed registry a key stands in one place only.
    proof fn lemma_slot(&self, i: int)
        requires
            self.wf(),
            0 <= i < self.keys().len(),
        ensures
            self.keys().contains(self.keys()[i]),
            self.slot(self.keys()[i]) == i,
    {
    }

    /// An empty registry.
    pub fn new() -> (registry: Registry<T>)
        ensures
            registry.wf(),
            registry.keys() == Seq::<Seq<char>>::empty(),
            registry.items() == Map::<Seq<char>, T>::empty(),
    {
        let registry = Registry { entries: Vec::new() };
        registry
    }

    /// The number of records.
    pub fn len(&self) -> (n: usize)
        requires
            self.wf(),
        ensures
            n == self.keys().len(),
            n == self.items().len(),
    {
        proof {
            self.lemma_entries();
        }
        self.entries.len()
    }

    /// The identity at place `i`.
    pub fn key_at(&self, i: usize) -> (key: &String)
        requires
            self.wf(),
            i < self.keys().len(),
        ensures
            key@ == self.keys()[i as int],
            self.items().contains_key(key@),
    {
        proof {
            self.lemma_entries();
        }
        &self.entries[i].key
    }

    /// The record at place `i`.
    pub fn value_at(&self, i: usize) -> (value: &T)
        requires
            self.wf(),
            i < self.keys().len(),
        ensures
            *value == self.values()[i as int],
            *value == self.items()[self.keys()[i as int]],
    {
        proof {
            self.lemma_entries();
        }
        &self.entries[i].value
    }

    /// The place of `key`, if it has a record.
    pub fn position(&self, key: &str) -> (place: Option<usize>)
        requires
            self.wf(),
        ensures
            match place {
                Some(i) => i < self.keys().len() && self.keys()[i as int] == key@
                    && self.items().contains_key(key@) && self.items()[key@]
                    == self.values()[i as int],
                None => !self.items().contains_key(key@),
            },
    {
        let wanted = key.to_owned();
        for i in 0..self.entries.len()
            invariant
                self.wf(),
                wanted@ == key@,
                forall|k: int| 0 <= k < i ==> (#[trigger] self.keys()[k]) != key@,
        {
            if self.entries[i].key == wanted {
                proof {
                    self.lemma_slot(i as int);
                }
                return Some(i);
            }
        }
        None
    }

    /// Whether `key` has a record.
    pub fn contains_key(&self, key: &str) -> (found: bool)
        requires
            self.wf(),
        ensures
            found == self.items().contains_key(key@),
    {
        self.position(key).is_some()
    }

    /// The record of `key`, if it has one.
    pub fn get(&self, key: &str) -> (record: Option<&T>)
        requires
            self.wf(),
        ensures
            match record {
                Some(value) => self.items().contains_key(key@) && *value == self.items()[key@],
                None => !self.items().contains_key(key@),
            },
    {
        match self.position(key) {
            Some(i) => Some(&self.entries[i].value),
            None => None,
        }
    }

    /// The record of `key` for changing in place, if it has one. Whatever the
    /// caller writes through the reference is the record of `key` afterwards;
    /// nothing else changes.
    pub fn get_mut(&mut self, key: &str) -> (record: Option<&mut T>)
        requires
            old(self).wf(),
        ensures
            final(self).wf(),
            final(self).keys() == old(self).keys(),
            match record {
                Some(value) => old(self).items().contains_key(key@) && *value == old(self).items()[key@]
                    && final(self).items() == old(self).items().insert(key@, *final(value)),
                None => !old(self).items().contains_key(key@) && final(self).items() == old(
                    self,
                ).items(),
            },
    {
        match self.position(key) {
            Some(i) => {
                let value = &mut self.entries[i].value;
                proof {
                    let after = Registry { entries: after_borrow(self.entries) };
                    assert(after.keys() =~= old(self).keys());
                    assert(after.values() =~= old(self).values().update(i as int, *final(value)));
                    after.lemma_agrees_after_update(*old(self), i as int);
                }
                Some(value)
            },
            None => None,
        }
    }

    /// Puts `value` under `key`, in place of the record that `key` had, and
    /// hands that record back. A new key goes to the end of the order.
    pub fn insert(&mut self, key: String, value: T) -> (previous: Option<T>)
        requires
            old(self).wf(),
        ensures
            final(self).wf(),
            final(self).items() == old(self).items().insert(key@, value),
            old(self).items().contains_key(key@) ==> previous == Some(old(self).items()[key@])
                && final(self).keys() == old(self).keys(),
            !old(self).items().contains_key(key@) ==> previous is None && final(self).keys() == old(
                self,
            ).keys().push(key@),
    {
        match self.position(key.as_str()) {
            Some(i) => {
                let ghost new_value = value;
                let mut value = value;
                std::mem::swap(&mut self.entries[i].value, &mut value);
                proof {
                    assert(self.keys() =~= old(self).keys());
                    assert(self.values() =~= old(self).values().update(i as int, new_value));
                    self.lemma_agrees_after_update(*old(self), i as int);
                }
                Some(value)
            },
            None => {
                self.entries.push(Entry { key, value });
                proof {
                    assert(self.keys() =~= old(self).keys().push(key@));
                    assert forall|k: Seq<char>| #[trigger]
                        old(self).items().insert(key@, value).contains_key(
                            k,
                        ) implies self.items().contains_key(k) && self.items()[k] == old(
                        self,
                    ).items().insert(key@, value)[k] by {
                        if k == key@ {
                            self.lemma_slot(self.keys().len() - 1);
                        } else {
                            let j = old(self).slot(k);
                            self.lemma_slot(j);
                            old(self).lemma_slot(j);
                        }
                    }
                }
                None
            },
        }
    }

    /// Takes the record of `key` out, if it has one; the others keep their
    /// order.
    pub fn remove(&mut self, key: &str) -> (removed: Option<T>)
        requires
            old(self).wf(),
        ensures
            final(self).wf(),
            final(self).items() == old(self).items().remove(key@),
            match removed {
                Some(value) => {
                    &&& old(self).items().contains_key(key@)
                    &&& value == old(self).items()[key@]
                    &&& 0 <= old(self).slot(key@) < old(self).keys().len()
                    &&& old(self).keys()[old(self).slot(key@)] == key@
                    &&& final(self).keys() == old(self).keys().remove(old(self).slot(key@))
                },
                None => !old(self).items().contains_key(key@) && final(self).keys() == old(
                    self,
                ).keys(),
            },
    {
        match self.position(key) {
            Some(i) => {
                let entry = self.entries.remove(i);
                proof {
                    assert(self.keys() =~= old(self).keys().remove(i as int));
                    old(self).lemma_slot(i as int);
                    assert forall|k: Seq<char>| #[trigger]
                        old(self).items().remove(key@).contains_key(
                            k,
                        ) implies self.items().contains_key(k) by {
                        let j0 = old(self).slot(k);
                        let j = if j0 < i {
                            j0
                        } else {
                            j0 - 1
                        };
                        assert(self.keys()[j] == k);
                    }
                }
                Some(entry.value)
            },
            None => None,
        }
    }

    /// A registry that differs from `before` in the record at place `i` only
    /// shows the map of `before` with that record replaced.
    proof fn lemma_agrees_after_update(&self, before: Registry<T>, i: int)
        requires
            before.wf(),
            0 <= i < before.keys().len(),
            self.keys() == before.keys(),
            self.values() == before.values().update(i, self.values()[i]),
        ensures
            self.wf(),
            self.items() == before.items().insert(before.keys()[i], self.values()[i]),
    {
    }
}

impl<T: View> View for Registry<T> {
    type V = Map<Seq<char>, T::V>;

    /// The registry as a map from identity to the model of the record.
    open spec fn view(&self) -> Map<Seq<char>, T::V> {
        self.items().map_values(|value: T| value@)
    }
}

} // verus!
