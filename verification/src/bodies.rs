//! The side table that ties simulation bodies to entities.
//!
//! The simulation knows a body by its handle, the world knows an entity by
//! its id. The table associates the two in both directions and owns neither:
//! a handle belongs to one entity, an entity has at most one body, and a
//! handle is never issued twice.

use vstd::prelude::*;
use std::collections::HashMap;
use crate::storage::Entity;

verus! {

broadcast use vstd::std_specs::hash::group_hash_axioms;

/// The stable name of a body in the simulation.
#[derive(Clone, Copy, Debug, PartialEq, Eq, Structural)]
pub struct BodyHandle {
    pub index: u64,
}

/// Whether no two handles of `bodies` belong to the same entity.
pub open spec fn one_to_one(bodies: Map<BodyHandle, Entity>) -> bool {
    forall|a: BodyHandle, b: BodyHandle|
        bodies.contains_key(a) && bodies.contains_key(b) && #[trigger] bodies[a] == #[trigger] bodies[b]
            ==> a == b
}

/// The handle in `bodies` that belongs to `entity`, if there is one.
pub open spec fn handle_of(bodies: Map<BodyHandle, Entity>, entity: Entity) -> Option<BodyHandle> {
    if exists|h: BodyHandle| bodies.contains_key(h) && #[trigger] bodies[h] == entity {
        Some(choose|h: BodyHandle| bodies.contains_key(h) && #[trigger] bodies[h] == entity)
    } else {
        None
    }
}

/// The entity that `handle` belongs to in `bodies`, if it is known there.
pub open spec fn owner_of(bodies: Map<BodyHandle, Entity>, handle: BodyHandle) -> Option<Entity> {
    if bodies.contains_key(handle) {
        Some(bodies[handle])
    } else {
        None
    }
}

/// The association of body handles and entities.
///
/// Its view maps each handle that is in use to its entity.
pub struct BodyTable {
    /// By handle: the entity that the body belongs to.
    owners: Vec<Option<Entity>>,
    /// By entity id: the handle of the entity's body.
    handles: HashMap<u32, BodyHandle>,
}

impl View for BodyTable {
    type V = Map<BodyHandle, Entity>;

    closed spec fn view(&self) -> Map<BodyHandle, Entity> {
        Map::new(
            |h: BodyHandle| h.index < self.owners@.len() && self.owners@[h.index as int].is_some(),
            |h: BodyHandle| self.owners@[h.index as int].unwrap(),
        )
    }
}

/// The handles below `n` that are in use.
spec fn live_below(owners: Seq<Option<Entity>>, n: int) -> Set<BodyHandle> {
    Set::new(
        |h: BodyHandle| h.index < n && h.index < owners.len() && owners[h.index as int].is_some(),
    )
}

proof fn lemma_live_below(owners: Seq<Option<Entity>>, n: int)
    requires
        0 <= n <= owners.len(),
        n <= u64::MAX,
    ensures
        live_below(owners, n).finite(),
        live_below(owners, n).len() <= n,
        n > 0 && owners[n - 1].is_some() ==> live_below(owners, n).len() == live_below(
            owners,
            n - 1,
        ).len() + 1,
        n > 0 && owners[n - 1].is_none() ==> live_below(owners, n).len() == live_below(
            owners,
            n - 1,
        ).len(),
    decreases n,
{
    if n == 0 {
        assert(live_below(owners, 0) =~= Set::<BodyHandle>::empty());
    } else {
        lemma_live_below(owners, n - 1);
        let last = BodyHandle { index: (n - 1) as u64 };
        if owners[n - 1].is_some() {
            assert(live_below(owners, n) =~= live_below(owners, n - 1).insert(last));
        } else {
            assert(live_below(owners, n) =~= live_below(owners, n - 1));
        }
    }
}

impl BodyTable {
    /// The number of handles issued so far. The next handle has this index.
    pub closed spec fn issued(&self) -> nat {
        self.owners@.len()
    }

    /// The two directions of the table agree.
    pub closed spec fn wf(&self) -> bool {
        &&& self.owners@.len() <= u64::MAX
        &&& forall|h: int|
            0 <= h < self.owners@.len() && (#[trigger] self.owners@[h]).is_some() ==> {
                let e = self.owners@[h].unwrap();
                self.handles@.contains_key(e.id) && self.handles@[e.id].index == h
            }
        &&& forall|id: u32| #[trigger]
            self.handles@.contains_key(id) ==> {
                let h = self.handles@[id];
                h.index < self.owners@.len() && self.owners@[h.index as int] == Some(
                    Entity { id },
                )
            }
    }

    /// In a well-formed table the handles in use are finitely many, each was
    /// issued, and no two belong to the same entity.
    pub proof fn lemma_wf(&self)
        requires
            self.wf(),
        ensures
            self@.dom().finite(),
            one_to_one(self@),
            forall|h: BodyHandle| self@.contains_key(h) ==> h.index < self.issued(),
    {
        lemma_live_below(self.owners@, self.owners@.len() as int);
        assert(self@.dom() =~= live_below(self.owners@, self.owners@.len() as int));
        assert forall|a: BodyHandle, b: BodyHandle|
            self@.contains_key(a) && self@.contains_key(b) && #[trigger] self@[a]
                == #[trigger] self@[b] implies a == b by {
            assert(self.owners@[a.index as int].is_some());
            assert(self.owners@[b.index as int].is_some());
        }
    }

    /// The handles of a well-formed table fit their type.
    pub proof fn lemma_issued(&self)
        requires
            self.wf(),
        ensures
            self.issued() <= u64::MAX,
    {
    }

    /// A table without bodies.
    pub fn new() -> (table: BodyTable)
        ensures
            table.wf(),
            table@ == Map::<BodyHandle, Entity>::empty(),
            table.issued() == 0,
    {
        let table = BodyTable { owners: Vec::new(), handles: HashMap::new() };
        assert(table@ =~= Map::<BodyHandle, Entity>::empty());
        table
    }

    /// The number of bodies.
    pub fn len(&self) -> (n: usize)
        requires
            self.wf(),
        ensures
            self@.dom().finite(),
            n == self@.dom().len(),
    {
        let mut n: usize = 0;
        let mut k: usize = 0;
        proof {
            lemma_live_below(self.owners@, 0);
        }
        while k < self.owners.len()
            invariant
                k <= self.owners@.len(),
                self.owners@.len() <= u64::MAX,
                n == live_below(self.owners@, k as int).len(),
                n <= k,
            decreases self.owners.len() - k,
        {
            proof {
                lemma_live_below(self.owners@, k + 1);
            }
            if self.owners[k].is_some() {
                n += 1;
            }
            k += 1;
        }
        proof {
            lemma_live_below(self.owners@, self.owners@.len() as int);
            assert(self@.dom() =~= live_below(self.owners@, self.owners@.len() as int));
        }
        n
    }

    /// The number of handles issued so far.
    pub fn handles_issued(&self) -> (n: usize)
        ensures
            n == self.issued(),
    {
        self.owners.len()
    }

    /// The entity that `handle` belongs to, if the handle is in use.
    pub fn entity_of(&self, handle: BodyHandle) -> (found: Option<Entity>)
        ensures
            found == owner_of(self@, handle),
    {
        if handle.index < self.owners.len() as u64 {
            self.owners[handle.index as usize]
        } else {
            None
        }
    }

    /// The handle of the body of `entity`, if it has one.
    pub fn handle_of(&self, entity: Entity) -> (found: Option<BodyHandle>)
        requires
            self.wf(),
        ensures
            found == handle_of(self@, entity),
    {
        let found: Option<BodyHandle> = match self.handles.get(&entity.id) {
            Some(handle) => Some(*handle),
            None => None,
        };
        proof {
            self.lemma_wf();
            match found {
                Some(h) => {
                    assert(self.handles@.contains_key(entity.id));
                    assert(self@.contains_key(h) && self@[h] == entity);
                    let chosen = choose|c: BodyHandle|
                        self@.contains_key(c) && #[trigger] self@[c] == entity;
                    assert(self@[chosen] == self@[h]);
                },
                None => {
                    assert forall|h: BodyHandle| self@.contains_key(h) implies #[trigger] self@[h]
                        != entity by {
                        assert(self.owners@[h.index as int].is_some());
                    }
                },
            }
        }
        found
    }

    /// Issues a new handle for a body of `entity`. A body that the entity
    /// had before loses its handle, which is returned as `retired`.
    pub fn attach(&mut self, entity: Entity) -> (result: (BodyHandle, Option<BodyHandle>))
        requires
            old(self).wf(),
        ensures
            final(self).wf(),
            result.0.index == old(self).issued(),
            final(self).issued() == old(self).issued() + 1,
            result.1 == handle_of(old(self)@, entity),
            final(self)@ == (match result.1 {
                Some(retired) => old(self)@.remove(retired),
                None => old(self)@,
            }).insert(result.0, entity),
    {
        let retired: Option<BodyHandle> = self.handle_of(entity);
        let ghost before = self@;
        match retired {
            Some(handle) => {
                assert(self.handles@.contains_key(entity.id) && self.handles@[entity.id]
                    == handle);
                assert(handle.index < self.owners.len());
                self.owners.set(handle.index as usize, None);
                assert(self@ =~= before.remove(handle));
            },
            None => {
                assert(!self.handles@.contains_key(entity.id)) by {
                    if self.handles@.contains_key(entity.id) {
                        let h = self.handles@[entity.id];
                        assert(before.contains_key(h) && before[h] == entity);
                    }
                }
            },
        }
        let ghost middle = self@;
        let handle = BodyHandle { index: self.owners.len() as u64 };
        self.owners.push(Some(entity));
        self.handles.insert(entity.id, handle);
        assert(self.owners@.len() == self.owners.len());
        assert(self@ =~= middle.insert(handle, entity));
        (handle, retired)
    }

    /// Forgets `handle`. Returns the entity that it belonged to, or `None`
    /// for a handle that is not in use, which changes nothing.
    pub fn detach(&mut self, handle: BodyHandle) -> (owner: Option<Entity>)
        requires
            old(self).wf(),
        ensures
            final(self).wf(),
            final(self).issued() == old(self).issued(),
            owner == owner_of(old(self)@, handle),
            final(self)@ == old(self)@.remove(handle),
    {
        let owner: Option<Entity> = self.entity_of(handle);
        match owner {
            Some(entity) => {
                assert(handle.index < self.owners.len());
                self.owners.set(handle.index as usize, None);
                self.handles.remove(&entity.id);
            },
            None => {},
        }
        assert(self@ =~= old(self)@.remove(handle));
        owner
    }
}

} // verus!
