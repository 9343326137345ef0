//! An index from identifier strings to slot numbers, kept in a hashbrown map.
use vstd::prelude::*;

verus! {

/// A hash index from identifier strings to slot numbers.
#[derive(Debug)]
#[verifier::external_body]
pub struct IdIndex {
    map: hashbrown::HashMap<String, usize>,
}

/// What an index holds: each key, by its characters, with its slot.
pub uninterp spec fn index_contents(m: IdIndex) -> Map<Seq<char>, usize>;

impl View for IdIndex {
    type V = Map<Seq<char>, usize>;

    open spec fn view(&self) -> Map<Seq<char>, usize> {
        index_contents(*self)
    }
}

impl IdIndex {
    /// Relies on hashbrown::HashMap::new: the new map holds no key.
    #[verifier::external_body]
    pub fn new() -> (r: IdIndex)
        ensures
            index_contents(r).dom() == Set::<Seq<char>>::empty(),
    {
        IdIndex { map: hashbrown::HashMap::new() }
    }

    /// Relies on hashbrown::HashMap::get: the slot stored under a key equal to `key`, if any.
    #[verifier::external_body]
    pub fn get(&self, key: &str) -> (r: Option<usize>)
        ensures
            r is Some <==> index_contents(*self).contains_key(key@),
            r is Some ==> r->0 == index_contents(*self)[key@],
    {
        self.map.get(key).copied()
    }

    /// Relies on hashbrown::HashMap::insert: afterwards `key` maps to `slot`, and every
    /// other key keeps its slot.
    #[verifier::external_body]
    pub fn insert(&mut self, key: String, slot: usize)
        ensures
            index_contents(*final(self)) == index_contents(*old(self)).insert(key@, slot),
    {
        self.map.insert(key, slot);
    }
}

} // verus!
