//! Values stored by identifier: a vector of slots and an index into it.
use vstd::prelude::*;

use crate::id_index::IdIndex;

verus! {

/// A map from identifier strings to values: the values sit in `slots`, and
/// `index` gives the slot of each key.
#[derive(Debug)]
pub struct Keyed<T> {
    pub(crate) index: IdIndex,
    pub(crate) slots: Vec<T>,
}

impl<T> Keyed<T> {
    /// Every key has a slot of its own, inside the vector.
    pub(crate) open spec fn wf(&self) -> bool {
        &&& forall|k: Seq<char>|
            #![trigger self.index@[k]]
            self.index@.contains_key(k) ==> self.index@[k] < self.slots@.len()
        &&& forall|k1: Seq<char>, k2: Seq<char>|
            #![trigger self.index@[k1], self.index@[k2]]
            self.index@.contains_key(k1) && self.index@.contains_key(k2) && self.index@[k1]
                == self.index@[k2] ==> k1 == k2
    }

    pub(crate) open spec fn view(&self) -> Map<Seq<char>, T> {
        Map::new(
            |k: Seq<char>| self.index@.contains_key(k),
            |k: Seq<char>| self.slots@[self.index@[k] as int],
        )
    }

    pub(crate) fn new() -> (r: Keyed<T>)
        ensures
            r.wf(),
            r@ == Map::<Seq<char>, T>::empty(),
    {
        let r = Keyed { index: IdIndex::new(), slots: Vec::new() };
        assert(r@ =~= Map::<Seq<char>, T>::empty());
        r
    }

    /// The slot of `key`, if the map holds it.
    pub(crate) fn slot(&self, key: &str) -> (r: Option<usize>)
        requires
            self.wf(),
        ensures
            r is Some <==> self@.contains_key(key@),
            r is Some ==> r->0 == self.index@[key@] && r->0 < self.slots@.len(),
    {
        self.index.get(key)
    }

    pub(crate) fn get(&self, key: &str) -> (r: Option<&T>)
        requires
            self.wf(),
        ensures
            r is Some <==> self@.contains_key(key@),
            r is Some ==> *r->0 == self@[key@],
    {
        match self.index.get(key) {
            Some(i) => {
                assert(self.index@[key@] < self.slots@.len());
                Some(&self.slots[i])
            },
            None => None,
        }
    }

    pub(crate) fn insert(&mut self, key: String, value: T)
        requires
            old(self).wf(),
        ensures
            final(self).wf(),
            final(self)@ == old(self)@.insert(key@, value),
    {
        match self.index.get(key.as_str()) {
            Some(i) => {
                assert(self.index@[key@] < self.slots@.len());
                self.slots.set(i, value);
                assert(self@ =~= old(self)@.insert(key@, value));
            },
            None => {
                let i = self.slots.len();
                self.slots.push(value);
                self.index.insert(key, i);
                assert forall|k1: Seq<char>, k2: Seq<char>|
                    #![trigger self.index@[k1], self.index@[k2]]
                    self.index@.contains_key(k1) && self.index@.contains_key(k2)
                        && self.index@[k1] == self.index@[k2] implies k1 == k2 by {
                    if k1 != key@ && k2 != key@ {
                        assert(old(self).index@[k1] == old(self).index@[k2]);
                    } else if k1 == key@ && k2 != key@ {
                        assert(old(self).index@[k2] < i);
                    } else if k1 != key@ && k2 == key@ {
                        assert(old(self).index@[k1] < i);
                    }
                }
                assert(self@ =~= old(self)@.insert(key@, value));
            },
        }
    }

    /// Replacing the value in the slot of `key` replaces the value of `key` alone.
    pub(crate) proof fn lemma_slot_update(old_map: Keyed<T>, new_map: Keyed<T>, key: Seq<char>, value: T)
        requires
            old_map.wf(),
            old_map@.contains_key(key),
            new_map.index == old_map.index,
            new_map.slots@ == old_map.slots@.update(old_map.index@[key] as int, value),
        ensures
            new_map.wf(),
            new_map@ == old_map@.insert(key, value),
    {
        assert forall|k: Seq<char>| new_map.index@.contains_key(k) && k != key implies
            new_map.index@[k] != old_map.index@[key] by {}
        assert(new_map@ =~= old_map@.insert(key, value));
    }
}

} // verus!
