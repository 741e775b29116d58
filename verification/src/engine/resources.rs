use vstd::prelude::*;
use std::collections::HashMap;

verus! {

broadcast use vstd::std_specs::hash::group_hash_axioms;

/// The singletons of the store: one value, as bytes, for each identity.
pub struct Resources {
    slots: HashMap<u64, Vec<u8>>,
}

impl Resources {
    /// The value of each identity that has one.
    pub closed spec fn view(&self) -> Map<u64, Seq<u8>> {
        Map::new(|id: u64| self.slots@.contains_key(id), |id: u64| self.slots@[id]@)
    }

    /// A store without values.
    pub fn new() -> (r: Self)
        ensures
            r@ == Map::<u64, Seq<u8>>::empty(),
    {
        let r = Resources { slots: HashMap::new() };
        assert(r@ =~= Map::<u64, Seq<u8>>::empty());
        r
    }

    /// Whether `id` has a value.
    pub fn contains(&self, id: u64) -> (present: bool)
        ensures
            present == self@.contains_key(id),
    {
        self.slots.contains_key(&id)
    }

    /// The value of `id`, where it has one.
    pub fn get(&self, id: u64) -> (value: Option<&Vec<u8>>)
        ensures
            match value {
                Some(bytes) => self@.contains_key(id) && self@[id] == bytes@,
                None => !self@.contains_key(id),
            },
    {
        self.slots.get(&id)
    }

    /// Gives `id` the value `value` and hands back the one it had.
    pub fn insert(&mut self, id: u64, value: Vec<u8>) -> (previous: Option<Vec<u8>>)
        ensures
            final(self)@ == old(self)@.insert(id, value@),
            match previous {
                Some(bytes) => old(self)@.contains_key(id) && old(self)@[id] == bytes@,
                None => !old(self)@.contains_key(id),
            },
    {
        let previous = self.slots.insert(id, value);
        assert(self@ =~= old(self)@.insert(id, value@));
        previous
    }

    /// Takes the value of `id` out of the store, where it has one.
    pub fn remove(&mut self, id: u64) -> (previous: Option<Vec<u8>>)
        ensures
            final(self)@ == old(self)@.remove(id),
            match previous {
                Some(bytes) => old(self)@.contains_key(id) && old(self)@[id] == bytes@,
                None => !old(self)@.contains_key(id),
            },
    {
        let previous = self.slots.remove(&id);
        assert(self@ =~= old(self)@.remove(id));
        previous
    }
}

} // verus!
