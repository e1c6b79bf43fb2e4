//! Component tables: one per component type, keyed by entity id.

use std::collections::HashMap;
use vstd::prelude::*;

verus! {

/// A mapping from entity id to component value. An id without an entry stands
/// for an entity that lacks the component.
pub struct Table<T> {
    cells: HashMap<u64, T>,
}

impl<T> View for Table<T> {
    type V = Map<u64, T>;

    /// The entries of the table.
    closed spec fn view(&self) -> Map<u64, T> {
        self.cells@
    }
}

impl<T: Copy> Table<T> {
    /// A table without entries.
    pub fn new() -> (table: Self)
        ensures
            table@ == Map::<u64, T>::empty(),
    {
        Table { cells: HashMap::new() }
    }

    /// Whether `id` has an entry.
    pub fn has(&self, id: u64) -> (present: bool)
        ensures
            present == self@.contains_key(id),
    {
        self.cells.contains_key(&id)
    }

    /// The entry of `id`, if there is one.
    pub fn get(&self, id: u64) -> (value: Option<T>)
        ensures
            value == self@.get(id),
    {
        match self.cells.get(&id) {
            Some(value) => Some(*value),
            None => None,
        }
    }

    /// Replaces the entry of `id`. An id without an entry gets none: the table
    /// is left as it was and the answer is `false`.
    pub fn set(&mut self, id: u64, value: T) -> (found: bool)
        ensures
            found == old(self)@.contains_key(id),
            final(self)@ == (if found {
                old(self)@.insert(id, value)
            } else {
                old(self)@
            }),
    {
        if self.cells.contains_key(&id) {
            self.cells.insert(id, value);
            true
        } else {
            false
        }
    }

    /// Gives `id` an entry, or replaces the one it has.
    pub(crate) fn insert(&mut self, id: u64, value: T)
        ensures
            final(self)@ == old(self)@.insert(id, value),
    {
        self.cells.insert(id, value);
    }

    /// Takes the entry of `id` away, if there is one.
    pub(crate) fn remove(&mut self, id: u64)
        ensures
            final(self)@ == old(self)@.remove(id),
    {
        self.cells.remove(&id);
    }
}

} // verus!
