//! Entities and dense per-kind component tables.

use vstd::prelude::*;

verus! {

/// An opaque entity identifier. Identifiers are handed out in rising order
/// and are never used twice.
#[derive(Clone, Copy, Debug, PartialEq, Eq, Structural)]
pub struct Entity {
    pub id: u32,
}

/// What a table holds for slot `id`: nothing where the table has no such slot.
pub open spec fn lookup<T>(table: Seq<Option<T>>, id: int) -> Option<T> {
    if 0 <= id < table.len() {
        table[id]
    } else {
        None
    }
}

/// A table with one optional component per entity slot, indexed by entity id.
///
/// Its view is the sequence of slots: an entity holds at most one component of
/// a kind because a slot holds at most one value.
pub struct Storage<T: Copy> {
    slots: Vec<Option<T>>,
}

impl<T: Copy> View for Storage<T> {
    type V = Seq<Option<T>>;

    closed spec fn view(&self) -> Seq<Option<T>> {
        self.slots@
    }
}

impl<T: Copy> Storage<T> {
    /// A table without slots.
    pub fn new() -> (table: Storage<T>)
        ensures
            table@ == Seq::<Option<T>>::empty(),
    {
        Storage { slots: Vec::new() }
    }

    /// The number of slots.
    pub fn len(&self) -> (n: usize)
        ensures
            n == self@.len(),
    {
        self.slots.len()
    }

    /// Adds one slot at the end, holding `value`.
    pub fn push(&mut self, value: Option<T>)
        ensures
            final(self)@ == old(self)@.push(value),
    {
        self.slots.push(value);
    }

    /// The component of entity `id`, if it has one.
    pub fn get(&self, id: u32) -> (found: Option<T>)
        ensures
            found == lookup(self@, id as int),
    {
        let index: usize = id as usize;
        if index < self.slots.len() {
            self.slots[index]
        } else {
            None
        }
    }

    /// Whether entity `id` has a component in this table.
    pub fn contains(&self, id: u32) -> (present: bool)
        ensures
            present == lookup(self@, id as int).is_some(),
    {
        self.get(id).is_some()
    }

    /// Attaches `value` to entity `id`, replacing what it had. A table without
    /// slot `id` stays as it is. Returns what the slot held before.
    pub fn insert(&mut self, id: u32, value: T) -> (before: Option<T>)
        ensures
            before == lookup(old(self)@, id as int),
            id < old(self)@.len() ==> final(self)@ == old(self)@.update(id as int, Some(value)),
            id >= old(self)@.len() ==> final(self)@ == old(self)@,
    {
        let index: usize = id as usize;
        if index < self.slots.len() {
            let before: Option<T> = self.slots[index];
            self.slots.set(index, Some(value));
            before
        } else {
            None
        }
    }

    /// Detaches the component of entity `id`. Returns what the slot held.
    pub fn remove(&mut self, id: u32) -> (before: Option<T>)
        ensures
            before == lookup(old(self)@, id as int),
            id < old(self)@.len() ==> final(self)@ == old(self)@.update(id as int, None),
            id >= old(self)@.len() ==> final(self)@ == old(self)@,
    {
        let index: usize = id as usize;
        if index < self.slots.len() {
            let before: Option<T> = self.slots[index];
            self.slots.set(index, None);
            before
        } else {
            None
        }
    }
}

} // verus!
