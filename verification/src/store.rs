//! The per-span store: at most one record for each live span, found by the
//! span's id.
use std::collections::HashMap;
use vstd::prelude::*;

verus! {

broadcast use vstd::std_specs::hash::group_hash_axioms;

/// A store of records of one type, one per span id.
pub struct SpanStore<T> {
    slots: HashMap<u64, T>,
}

impl<T> View for SpanStore<T> {
    type V = Map<u64, T>;

    closed spec fn view(&self) -> Map<u64, T> {
        self.slots@
    }
}

impl<T> SpanStore<T> {
    /// A store without records.
    pub fn new() -> (r: Self)
        ensures
            r@ == Map::<u64, T>::empty(),
    {
        SpanStore { slots: HashMap::new() }
    }

    /// Whether the span has a record.
    pub fn contains(&self, id: u64) -> (r: bool)
        ensures
            r == self@.contains_key(id),
    {
        self.slots.contains_key(&id)
    }

    /// Gives the span a record unless it has one: a second call for the
    /// same span changes nothing.
    pub fn init(&mut self, id: u64, record: T)
        ensures
            old(self)@.contains_key(id) ==> final(self)@ == old(self)@,
            !old(self)@.contains_key(id) ==> final(self)@ == old(self)@.insert(id, record),
    {
        if !self.slots.contains_key(&id) {
            self.slots.insert(id, record);
        }
    }

    /// The record of the span, if it has one.
    pub fn get(&self, id: u64) -> (r: Option<&T>)
        ensures
            match r {
                Some(record) => self@.contains_key(id) && *record == self@[id],
                None => !self@.contains_key(id),
            },
    {
        self.slots.get(&id)
    }

    /// Takes the record of the span out of the store.
    pub fn remove(&mut self, id: u64) -> (r: Option<T>)
        ensures
            final(self)@ == old(self)@.remove(id),
            match r {
                Some(record) => old(self)@.contains_key(id) && record == old(self)@[id],
                None => !old(self)@.contains_key(id),
            },
    {
        self.slots.remove(&id)
    }

    /// Puts `record` in the place of the span's record.
    pub fn replace(&mut self, id: u64, record: T)
        ensures
            final(self)@ == old(self)@.insert(id, record),
    {
        self.slots.insert(id, record);
    }
}

} // verus!
