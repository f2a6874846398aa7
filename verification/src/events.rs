//! The event queues and the force table that the systems share.
//!
//! Key presses and render requests wait in first-in, first-out queues. Each
//! system takes at most one entry per tick. Forces are recorded per entity
//! until the physics system hands them to the simulation.

use vstd::prelude::*;
use std::collections::HashMap;
use std::collections::VecDeque;
use crate::fixed::Fixed;

verus! {

broadcast use vstd::std_specs::hash::group_hash_axioms;

/// A key of the keyboard, as far as the game tells keys apart.
#[derive(Clone, Copy, Debug, PartialEq, Eq, Structural)]
pub enum Key {
    Left,
    Right,
    Up,
    Down,
    /// Any key that the game does not react to.
    Other,
}

/// The queue of key presses that no system has handled yet, oldest first.
#[derive(Debug)]
pub struct KeyPressEvents {
    queue: VecDeque<Key>,
}

impl View for KeyPressEvents {
    type V = Seq<Key>;

    closed spec fn view(&self) -> Seq<Key> {
        self.queue@
    }
}

impl KeyPressEvents {
    /// An empty queue.
    pub fn new() -> (events: KeyPressEvents)
        ensures
            events@ == Seq::<Key>::empty(),
    {
        KeyPressEvents { queue: VecDeque::new() }
    }

    /// Appends a key press behind all that wait.
    pub fn push(&mut self, key: Key)
        ensures
            final(self)@ == old(self)@.push(key),
    {
        self.queue.push_back(key);
    }

    /// Takes the oldest key press. An empty queue stays as it is.
    pub fn pop(&mut self) -> (key: Option<Key>)
        ensures
            old(self)@.len() == 0 ==> key.is_none() && final(self)@ == old(self)@,
            old(self)@.len() > 0 ==> key == Some(old(self)@[0]) && final(self)@ == old(
                self,
            )@.drop_first(),
    {
        self.queue.pop_front()
    }

    /// The number of key presses that wait.
    pub fn len(&self) -> (n: usize)
        ensures
            n == self@.len(),
    {
        self.queue.len()
    }
}

/// What a frame is rendered with: the time by which the frame runs ahead of
/// the last update, in seconds, the size of the window, and the size of its
/// drawable area in pixels.
#[derive(Clone, Copy, Debug, PartialEq, Eq, Structural)]
pub struct RenderArgs {
    pub ext_dt: Fixed,
    pub window_width: Fixed,
    pub window_height: Fixed,
    pub draw_width: u32,
    pub draw_height: u32,
}

/// The queue of render requests that wait, oldest first.
#[derive(Debug)]
pub struct RenderEvents {
    queue: VecDeque<RenderArgs>,
}

impl View for RenderEvents {
    type V = Seq<RenderArgs>;

    closed spec fn view(&self) -> Seq<RenderArgs> {
        self.queue@
    }
}

impl RenderEvents {
    /// An empty queue.
    pub fn new() -> (events: RenderEvents)
        ensures
            events@ == Seq::<RenderArgs>::empty(),
    {
        RenderEvents { queue: VecDeque::new() }
    }

    /// Appends a render request behind all that wait.
    pub fn push(&mut self, args: RenderArgs)
        ensures
            final(self)@ == old(self)@.push(args),
    {
        self.queue.push_back(args);
    }

    /// Takes the oldest render request. An empty queue stays as it is.
    pub fn pop(&mut self) -> (args: Option<RenderArgs>)
        ensures
            old(self)@.len() == 0 ==> args.is_none() && final(self)@ == old(self)@,
            old(self)@.len() > 0 ==> args == Some(old(self)@[0]) && final(self)@ == old(
                self,
            )@.drop_first(),
    {
        self.queue.pop_front()
    }

    /// The oldest render request, which stays in the queue.
    pub fn front(&self) -> (args: Option<RenderArgs>)
        ensures
            self@.len() == 0 ==> args.is_none(),
            self@.len() > 0 ==> args == Some(self@[0]),
    {
        if self.queue.len() > 0 {
            Some(self.queue[0])
        } else {
            None
        }
    }

    /// The number of render requests that wait.
    pub fn len(&self) -> (n: usize)
        ensures
            n == self@.len(),
    {
        self.queue.len()
    }
}

/// A force on a body, in world units.
#[derive(Clone, Copy, Debug, PartialEq, Eq, Structural)]
pub struct Force {
    pub x: Fixed,
    pub y: Fixed,
}

/// The forces recorded against each entity id, in the order in which they
/// were recorded.
///
/// Its view gives every id its sequence of forces: the empty sequence for an
/// id without any.
#[derive(Debug)]
pub struct ForceEvents {
    table: HashMap<u32, Vec<Force>>,
}

impl View for ForceEvents {
    type V = Map<u32, Seq<Force>>;

    closed spec fn view(&self) -> Map<u32, Seq<Force>> {
        Map::new(
            |id: u32| true,
            |id: u32|
                if self.table@.contains_key(id) {
                    self.table@[id]@
                } else {
                    Seq::<Force>::empty()
                },
        )
    }
}

impl ForceEvents {
    /// The view is defined on every id.
    pub proof fn lemma_total(&self)
        ensures
            forall|id: u32| self@.contains_key(id),
    {
    }

    /// A table without forces.
    pub fn new() -> (events: ForceEvents)
        ensures
            events@ == Map::new(|id: u32| true, |id: u32| Seq::<Force>::empty()),
    {
        let events = ForceEvents { table: HashMap::new() };
        assert(events@ =~= Map::new(|id: u32| true, |id: u32| Seq::<Force>::empty()));
        events
    }

    /// Records `force` against `index`, behind the forces recorded before.
    pub fn push(&mut self, index: u32, force: Force)
        ensures
            final(self)@ == old(self)@.insert(index, old(self)@[index].push(force)),
    {
        let found: Option<Vec<Force>> = self.table.remove(&index);
        let mut forces: Vec<Force> = match found {
            Some(forces) => forces,
            None => Vec::new(),
        };
        forces.push(force);
        self.table.insert(index, forces);
        assert(final(self)@ =~= old(self)@.insert(index, old(self)@[index].push(force)));
    }

    /// Forgets the forces recorded against `index`.
    pub fn clear(&mut self, index: u32)
        ensures
            final(self)@ == old(self)@.insert(index, Seq::<Force>::empty()),
    {
        self.table.remove(&index);
        assert(final(self)@ =~= old(self)@.insert(index, Seq::<Force>::empty()));
    }

    /// The forces recorded against `index`, oldest first.
    pub fn get(&self, index: u32) -> (forces: Vec<Force>)
        ensures
            forces@ == self@[index],
    {
        let mut forces: Vec<Force> = Vec::new();
        match self.table.get(&index) {
            Some(recorded) => {
                let mut i: usize = 0;
                while i < recorded.len()
                    invariant
                        i <= recorded.len(),
                        forces@ == recorded@.subrange(0, i as int),
                    decreases recorded.len() - i,
                {
                    forces.push(recorded[i]);
                    assert(forces@ =~= recorded@.subrange(0, i + 1));
                    i += 1;
                }
                assert(recorded@.subrange(0, recorded.len() as int) =~= recorded@);
            },
            None => {},
        }
        forces
    }
}

} // verus!
