//! The physics system: the bridge between the world and a rigid-body
//! simulation that runs outside this crate.
//!
//! A tick of the system has two halves. [`PhysicsSys::prepare`] reads the
//! elapsed time from the oldest render request without taking it, registers
//! a body for every entity that holds a transform and a rigid-body
//! descriptor, gathers the recorded forces, and returns what the simulation
//! is to do. The caller performs that and reports where the bodies are.
//! [`PhysicsSys::finish`] writes those positions to the transforms and
//! prunes the bodies whose entity has lost its transform.
//!
//! The policy is fixed: the simulation advances by twice the elapsed time,
//! under a gravity of 9.81 units along the y axis, and where two bodies
//! touch it combines their restitutions, and their frictions, by the
//! arithmetic mean.

use vstd::prelude::*;
use crate::bodies::{handle_of, one_to_one, owner_of, BodyHandle, BodyTable};
use crate::components::{ComponentKind, RigidBodyDescriptor, Transform};
use crate::events::{Force, ForceEvents, RenderEvents};
use crate::fixed::Fixed;
use crate::storage::{lookup, Entity, Storage};
use crate::world::{total, Command, WorldState};

verus! {

/// The factor by which the elapsed time is scaled for the simulation.
pub const TIME_SCALE: i64 = 2;

/// How the simulation combines the material constants of two bodies that
/// touch.
#[derive(Clone, Copy, Debug, PartialEq, Eq, Structural)]
pub enum CombineRule {
    /// The arithmetic mean of the two constants.
    Average,
    /// The product of the two constants.
    Multiply,
}

/// The rule by which restitution and friction are combined.
pub fn combine_rule() -> (rule: CombineRule)
    ensures
        rule == CombineRule::Average,
{
    CombineRule::Average
}

/// The gravity of the simulation: 9.81 units per second squared, downwards.
pub fn gravity() -> (g: Force)
    ensures
        g == (Force { x: Fixed { micros: 0 }, y: Fixed { micros: 9_810_000 } }),
{
    Force { x: Fixed { micros: 0 }, y: Fixed { micros: 9_810_000 } }
}

/// A body that the simulation is to create: a box with the given half
/// extents and material, centred at `(x, y)`, known by `handle`.
#[derive(Clone, Copy, Debug, PartialEq, Eq)]
pub struct BodyRequest {
    pub handle: BodyHandle,
    pub entity: Entity,
    pub x: Fixed,
    pub y: Fixed,
    pub descriptor: RigidBodyDescriptor,
}

/// A force that the simulation is to apply to a body in the coming step.
#[derive(Clone, Copy, Debug, PartialEq, Eq, Structural)]
pub struct Impulse {
    pub handle: BodyHandle,
    pub x: Fixed,
    pub y: Fixed,
}

/// Where the simulation has a body after a step.
#[derive(Clone, Copy, Debug, PartialEq, Eq, Structural)]
pub struct BodyState {
    pub handle: BodyHandle,
    pub x: Fixed,
    pub y: Fixed,
}

/// What the simulation is to do in one tick, in this order: remove the
/// bodies in `retire`, create those in `create`, apply `impulses`, and
/// advance by `dt` seconds.
#[derive(Debug, PartialEq, Eq)]
pub struct StepRequest {
    pub retire: Vec<BodyHandle>,
    pub create: Vec<BodyRequest>,
    pub impulses: Vec<Impulse>,
    pub dt: Fixed,
}

/// A step request as plain mathematical values.
pub ghost struct StepPlan {
    pub retire: Seq<BodyHandle>,
    pub create: Seq<BodyRequest>,
    pub impulses: Seq<Impulse>,
    pub dt: Fixed,
}

impl View for StepRequest {
    type V = StepPlan;

    open spec fn view(&self) -> StepPlan {
        StepPlan {
            retire: self.retire@,
            create: self.create@,
            impulses: self.impulses@,
            dt: self.dt,
        }
    }
}

/// The state of a registration that is under way.
pub ghost struct Registration {
    /// The handles in use, each with its entity.
    pub table: Map<BodyHandle, Entity>,
    /// The number of handles issued.
    pub issued: nat,
    /// The bodies to create, in the order of their entities.
    pub create: Seq<BodyRequest>,
    /// The handles that lost their entity to a new body.
    pub retire: Seq<BodyHandle>,
    /// The buffer of deferred commands.
    pub commands: Seq<Command>,
}

/// Whether the entity in slot `id` is to get a body: it holds a transform
/// and a rigid-body descriptor.
pub open spec fn awaits_body(
    bodies: Seq<Option<RigidBodyDescriptor>>,
    transforms: Seq<Option<Transform>>,
    id: int,
) -> bool {
    lookup(bodies, id).is_some() && lookup(transforms, id).is_some()
}

/// The registration after the body of the entity in slot `id` has been
/// registered: the body gets the next handle and stands at the entity's
/// transform, a body that the entity had before is retired, and the removal
/// of the descriptor is deferred.
pub open spec fn register_one(
    before: Registration,
    id: int,
    transform: Transform,
    descriptor: RigidBodyDescriptor,
) -> Registration {
    let entity = Entity { id: id as u32 };
    let handle = BodyHandle { index: before.issued as u64 };
    let retired = handle_of(before.table, entity);
    Registration {
        table: (match retired {
            Some(r) => before.table.remove(r),
            None => before.table,
        }).insert(handle, entity),
        issued: before.issued + 1,
        create: before.create.push(
            BodyRequest { handle, entity, x: transform.x, y: transform.y, descriptor },
        ),
        retire: match retired {
            Some(r) => before.retire.push(r),
            None => before.retire,
        },
        commands: before.commands.push(
            Command::Remove { kind: ComponentKind::RigidBody, entity },
        ),
    }
}

/// The registration after the first `n` entity slots have been visited, in
/// rising order.
pub open spec fn register(
    start: Registration,
    bodies: Seq<Option<RigidBodyDescriptor>>,
    transforms: Seq<Option<Transform>>,
    n: int,
) -> Registration
    decreases n,
{
    if n <= 0 {
        start
    } else {
        let before = register(start, bodies, transforms, n - 1);
        if awaits_body(bodies, transforms, n - 1) {
            register_one(before, n - 1, transforms[n - 1].unwrap(), bodies[n - 1].unwrap())
        } else {
            before
        }
    }
}

/// The forces of one entity as impulses on its body.
pub open spec fn impulses_of(handle: BodyHandle, forces: Seq<Force>) -> Seq<Impulse> {
    Seq::new(forces.len(), |k: int| Impulse { handle, x: forces[k].x, y: forces[k].y })
}

/// The impulses on the bodies with a handle below `n`, by rising handle,
/// and for one body in the order in which its forces were recorded.
pub open spec fn collected(
    table: Map<BodyHandle, Entity>,
    forces: Map<u32, Seq<Force>>,
    n: int,
) -> Seq<Impulse>
    decreases n,
{
    if n <= 0 {
        Seq::empty()
    } else {
        let handle = BodyHandle { index: (n - 1) as u64 };
        collected(table, forces, n - 1) + (if table.contains_key(handle) {
            impulses_of(handle, forces[table[handle].id])
        } else {
            Seq::empty()
        })
    }
}

/// Whether some body with a handle below `n` belongs to entity `id`.
pub open spec fn has_body_below(table: Map<BodyHandle, Entity>, id: u32, n: int) -> bool {
    exists|h: BodyHandle| h.index < n && table.contains_key(h) && (#[trigger] table[h]).id == id
}

/// The force table after the forces of the entities with a body whose
/// handle is below `n` have been handed over.
pub open spec fn consumed(
    table: Map<BodyHandle, Entity>,
    forces: Map<u32, Seq<Force>>,
    n: int,
) -> Map<u32, Seq<Force>> {
    Map::new(
        |id: u32| true,
        |id: u32|
            if has_body_below(table, id, n) {
                Seq::empty()
            } else {
                forces[id]
            },
    )
}

/// The transforms after the reported body states have been written to
/// them, first to last. A state counts where its handle is in use and its
/// entity holds a transform.
pub open spec fn synced(
    transforms: Seq<Option<Transform>>,
    table: Map<BodyHandle, Entity>,
    states: Seq<BodyState>,
) -> Seq<Option<Transform>>
    decreases states.len(),
{
    if states.len() == 0 {
        transforms
    } else {
        let before = synced(transforms, table, states.drop_last());
        let state = states.last();
        match owner_of(table, state.handle) {
            Some(entity) => if lookup(before, entity.id as int).is_some() {
                before.update(entity.id as int, Some(Transform { x: state.x, y: state.y }))
            } else {
                before
            },
            None => before,
        }
    }
}

/// Whether the body `handle` has lost its entity's transform.
pub open spec fn is_stale(
    table: Map<BodyHandle, Entity>,
    transforms: Seq<Option<Transform>>,
    handle: BodyHandle,
) -> bool {
    table.contains_key(handle) && lookup(transforms, table[handle].id as int).is_none()
}

/// The stale bodies with a handle below `n`, by rising handle.
pub open spec fn stale(
    table: Map<BodyHandle, Entity>,
    transforms: Seq<Option<Transform>>,
    n: int,
) -> Seq<BodyHandle>
    decreases n,
{
    if n <= 0 {
        Seq::empty()
    } else {
        let handle = BodyHandle { index: (n - 1) as u64 };
        if is_stale(table, transforms, handle) {
            stale(table, transforms, n - 1).push(handle)
        } else {
            stale(table, transforms, n - 1)
        }
    }
}

/// The table without its stale bodies.
pub open spec fn pruned(
    table: Map<BodyHandle, Entity>,
    transforms: Seq<Option<Transform>>,
) -> Map<BodyHandle, Entity> {
    Map::new(
        |h: BodyHandle| table.contains_key(h) && !is_stale(table, transforms, h),
        |h: BodyHandle| table[h],
    )
}

/// What the physics system knows between calls.
pub ghost struct PhysicsState {
    /// The bodies in the simulation, each with its entity.
    pub table: Map<BodyHandle, Entity>,
    /// The number of handles issued.
    pub issued: nat,
    /// Whether a step has been requested and its outcome is awaited.
    pub stepping: bool,
}

/// The outcome of the first half of a tick of the physics system.
pub ghost struct Prepared {
    pub world: WorldState,
    pub physics: PhysicsState,
    pub plan: Option<StepPlan>,
}

/// The first half of a tick of the physics system, on plain values.
pub open spec fn prepared(world: WorldState, physics: PhysicsState) -> Prepared {
    if physics.stepping || world.render_events.len() == 0 {
        Prepared { world, physics, plan: None }
    } else {
        let start = Registration {
            table: physics.table,
            issued: physics.issued,
            create: Seq::empty(),
            retire: Seq::empty(),
            commands: world.pending,
        };
        let end = register(start, world.bodies, world.transforms, world.bodies.len() as int);
        Prepared {
            world: WorldState {
                pending: end.commands,
                forces: consumed(end.table, world.forces, end.issued as int),
                ..world
            },
            physics: PhysicsState { table: end.table, issued: end.issued, stepping: true },
            plan: Some(
                StepPlan {
                    retire: end.retire,
                    create: end.create,
                    impulses: collected(end.table, world.forces, end.issued as int),
                    dt: world.render_events[0].ext_dt.times(TIME_SCALE as int),
                },
            ),
        }
    }
}

/// The outcome of the second half of a tick of the physics system.
pub ghost struct Finished {
    pub world: WorldState,
    pub physics: PhysicsState,
    pub gone: Seq<BodyHandle>,
}

/// The second half of a tick of the physics system, on plain values.
pub open spec fn finished(
    world: WorldState,
    physics: PhysicsState,
    states: Seq<BodyState>,
) -> Finished {
    if !physics.stepping {
        Finished { world, physics, gone: Seq::empty() }
    } else {
        let transforms = synced(world.transforms, physics.table, states);
        Finished {
            world: WorldState { transforms, ..world },
            physics: PhysicsState {
                table: pruned(physics.table, transforms),
                issued: physics.issued,
                stepping: false,
            },
            gone: stale(physics.table, transforms, physics.issued as int),
        }
    }
}

/// Writing body states to the transforms neither adds nor removes a
/// transform.
pub proof fn lemma_synced_shape(
    transforms: Seq<Option<Transform>>,
    table: Map<BodyHandle, Entity>,
    states: Seq<BodyState>,
)
    ensures
        synced(transforms, table, states).len() == transforms.len(),
        forall|i: int|
            0 <= i < transforms.len() ==> (#[trigger] synced(transforms, table, states)[i]).is_some()
                == transforms[i].is_some(),
    decreases states.len(),
{
    if states.len() > 0 {
        lemma_synced_shape(transforms, table, states.drop_last());
    }
}

/// The physics system.
pub struct PhysicsSys {
    table: BodyTable,
    stepping: bool,
}

impl View for PhysicsSys {
    type V = PhysicsState;

    closed spec fn view(&self) -> PhysicsState {
        PhysicsState { table: self.table@, issued: self.table.issued(), stepping: self.stepping }
    }
}

impl PhysicsSys {
    /// The side table is consistent.
    pub closed spec fn wf(&self) -> bool {
        self.table.wf()
    }

    /// In a consistent system the bodies are finitely many, each handle in
    /// use was issued, and no two bodies belong to the same entity.
    pub proof fn lemma_wf(&self)
        requires
            self.wf(),
        ensures
            self@.table.dom().finite(),
            one_to_one(self@.table),
            self@.issued <= u64::MAX,
            forall|h: BodyHandle| self@.table.contains_key(h) ==> h.index < self@.issued,
    {
        self.table.lemma_wf();
        self.table.lemma_issued();
    }

    /// A system without bodies.
    pub fn new() -> (system: PhysicsSys)
        ensures
            system.wf(),
            system@ == (PhysicsState { table: Map::empty(), issued: 0, stepping: false }),
    {
        PhysicsSys { table: BodyTable::new(), stepping: false }
    }

    /// The number of bodies in the simulation.
    pub fn body_count(&self) -> (n: usize)
        requires
            self.wf(),
        ensures
            self@.table.dom().finite(),
            n == self@.table.dom().len(),
    {
        self.table.len()
    }

    /// The entity that `handle` belongs to, if the handle is in use.
    pub fn entity_of(&self, handle: BodyHandle) -> (found: Option<Entity>)
        ensures
            found == owner_of(self@.table, handle),
    {
        self.table.entity_of(handle)
    }

    /// The handle of the body of `entity`, if it has one.
    pub fn handle_of(&self, entity: Entity) -> (found: Option<BodyHandle>)
        requires
            self.wf(),
        ensures
            found == handle_of(self@.table, entity),
    {
        self.table.handle_of(entity)
    }

    /// Whether a step has been requested and its outcome is awaited.
    pub fn is_stepping(&self) -> (stepping: bool)
        ensures
            stepping == self@.stepping,
    {
        self.stepping
    }

    /// The first half of a tick. Without a render request, or while the
    /// outcome of a step is awaited, nothing happens and the result is
    /// `None`. Otherwise every entity that holds a transform and a
    /// descriptor gets a body, the removal of its descriptor is deferred,
    /// the forces of all entities with a body are handed over, and the
    /// step is as long as twice the elapsed time of the oldest render
    /// request, which stays in its queue.
    pub fn prepare(
        &mut self,
        render_events: &RenderEvents,
        forces: &mut ForceEvents,
        bodies: &Storage<RigidBodyDescriptor>,
        transforms: &Storage<Transform>,
        commands: &mut Vec<Command>,
    ) -> (request: Option<StepRequest>)
        requires
            old(self).wf(),
            bodies@.len() <= u32::MAX,
        ensures
            final(self).wf(),
            old(self)@.stepping || render_events@.len() == 0 ==> {
                &&& request.is_none()
                &&& final(self)@ == old(self)@
                &&& final(forces)@ == old(forces)@
                &&& final(commands)@ == old(commands)@
            },
            !old(self)@.stepping && render_events@.len() > 0 ==> {
                let start = Registration {
                    table: old(self)@.table,
                    issued: old(self)@.issued,
                    create: Seq::empty(),
                    retire: Seq::empty(),
                    commands: old(commands)@,
                };
                let end = register(start, bodies@, transforms@, bodies@.len() as int);
                &&& request.is_some()
                &&& request.unwrap().create@ == end.create
                &&& request.unwrap().retire@ == end.retire
                &&& request.unwrap().impulses@ == collected(
                    end.table,
                    old(forces)@,
                    end.issued as int,
                )
                &&& request.unwrap().dt == render_events@[0].ext_dt.times(TIME_SCALE as int)
                &&& final(commands)@ == end.commands
                &&& final(forces)@ == consumed(end.table, old(forces)@, end.issued as int)
                &&& final(self)@ == (PhysicsState {
                    table: end.table,
                    issued: end.issued,
                    stepping: true,
                })
            },
    {
        proof {
            forces.lemma_total();
        }
        if self.stepping {
            return None;
        }
        let args = match render_events.front() {
            Some(args) => args,
            None => {
                return None;
            },
        };
        let dt: Fixed = args.ext_dt.scaled(TIME_SCALE);

        // Registration.
        let ghost start = Registration {
            table: self.table@,
            issued: self.table.issued(),
            create: Seq::empty(),
            retire: Seq::empty(),
            commands: commands@,
        };
        let mut create: Vec<BodyRequest> = Vec::new();
        let mut retire: Vec<BodyHandle> = Vec::new();
        let slots: usize = bodies.len();
        let mut id: usize = 0;
        while id < slots
            invariant
                id <= slots,
                slots == bodies@.len(),
                slots <= u32::MAX,
                self.table.wf(),
                !self.stepping,
                ({
                    let now = register(start, bodies@, transforms@, id as int);
                    &&& self.table@ == now.table
                    &&& self.table.issued() == now.issued
                    &&& create@ == now.create
                    &&& retire@ == now.retire
                    &&& commands@ == now.commands
                }),
            decreases slots - id,
        {
            let entity = Entity { id: id as u32 };
            match (bodies.get(entity.id), transforms.get(entity.id)) {
                (Some(descriptor), Some(transform)) => {
                    let (handle, retired) = self.table.attach(entity);
                    create.push(
                        BodyRequest { handle, entity, x: transform.x, y: transform.y, descriptor },
                    );
                    match retired {
                        Some(old_handle) => {
                            retire.push(old_handle);
                        },
                        None => {},
                    }
                    commands.push(Command::Remove { kind: ComponentKind::RigidBody, entity });
                },
                _ => {},
            }
            id += 1;
        }
        let ghost end = register(start, bodies@, transforms@, slots as int);

        // The forces of the entities that have a body.
        let issued: usize = self.table.handles_issued();
        let mut impulses: Vec<Impulse> = Vec::new();
        let mut h: usize = 0;
        while h < issued
            invariant
                h <= issued,
                issued == self.table.issued(),
                impulses@ == collected(self.table@, forces@, h as int),
            decreases issued - h,
        {
            let handle = BodyHandle { index: h as u64 };
            match self.table.entity_of(handle) {
                Some(entity) => {
                    let recorded: Vec<Force> = forces.get(entity.id);
                    let ghost done = impulses@;
                    let mut k: usize = 0;
                    while k < recorded.len()
                        invariant
                            k <= recorded@.len(),
                            impulses@ == done + impulses_of(handle, recorded@).subrange(
                                0,
                                k as int,
                            ),
                        decreases recorded.len() - k,
                    {
                        let force: Force = recorded[k];
                        impulses.push(Impulse { handle, x: force.x, y: force.y });
                        assert(impulses@ =~= done + impulses_of(handle, recorded@).subrange(
                            0,
                            k + 1,
                        ));
                        k += 1;
                    }
                    assert(impulses_of(handle, recorded@).subrange(0, k as int) =~= impulses_of(
                        handle,
                        recorded@,
                    ));
                },
                None => {
                    assert(impulses@ + Seq::<Impulse>::empty() =~= impulses@);
                },
            }
            h += 1;
        }
        let ghost before = forces@;
        let mut h: usize = 0;
        while h < issued
            invariant
                h <= issued,
                issued == self.table.issued(),
                total(before),
                forces@ == consumed(self.table@, before, h as int),
            decreases issued - h,
        {
            let handle = BodyHandle { index: h as u64 };
            let ghost table = self.table@;
            match self.table.entity_of(handle) {
                Some(entity) => {
                    forces.clear(entity.id);
                    assert(forces@ =~= consumed(table, before, h + 1)) by {
                        assert forall|id: u32| has_body_below(table, id, h + 1) == (has_body_below(
                            table,
                            id,
                            h as int,
                        ) || id == entity.id) by {
                            if has_body_below(table, id, h + 1) {
                                let w = choose|w: BodyHandle|
                                    w.index < h + 1 && table.contains_key(w) && (
                                    #[trigger] table[w]).id == id;
                                if w.index < h {
                                    assert(has_body_below(table, id, h as int));
                                } else {
                                    assert(w == handle);
                                }
                            }
                            if id == entity.id {
                                assert(table[handle].id == id);
                            }
                            if has_body_below(table, id, h as int) {
                                let w = choose|w: BodyHandle|
                                    w.index < h && table.contains_key(w) && (#[trigger] table[w]).id
                                        == id;
                                assert(w.index < h + 1);
                            }
                        }
                    }
                },
                None => {
                    assert(forces@ =~= consumed(table, before, h + 1)) by {
                        assert forall|id: u32| has_body_below(table, id, h + 1) == has_body_below(
                            table,
                            id,
                            h as int,
                        ) by {
                            if has_body_below(table, id, h + 1) {
                                let w = choose|w: BodyHandle|
                                    w.index < h + 1 && table.contains_key(w) && (
                                    #[trigger] table[w]).id == id;
                                assert(w.index < h);
                            }
                            if has_body_below(table, id, h as int) {
                                let w = choose|w: BodyHandle|
                                    w.index < h && table.contains_key(w) && (#[trigger] table[w]).id
                                        == id;
                                assert(w.index < h + 1);
                            }
                        }
                    }
                },
            }
            h += 1;
        }
        self.stepping = true;
        Some(StepRequest { retire, create, impulses, dt })
    }

    /// The second half of a tick. Unless the outcome of a step is awaited,
    /// nothing happens. Otherwise the reported positions are written to
    /// the transforms of the bodies' entities, and every body whose entity
    /// holds no transform is forgotten and returned, for the caller to
    /// remove it from the simulation.
    pub fn finish(&mut self, transforms: &mut Storage<Transform>, states: &Vec<BodyState>) -> (gone:
        Vec<BodyHandle>)
        requires
            old(self).wf(),
        ensures
            final(self).wf(),
            final(transforms)@.len() == old(transforms)@.len(),
            !old(self)@.stepping ==> {
                &&& gone@ == Seq::<BodyHandle>::empty()
                &&& final(self)@ == old(self)@
                &&& final(transforms)@ == old(transforms)@
            },
            old(self)@.stepping ==> {
                &&& final(transforms)@ == synced(old(transforms)@, old(self)@.table, states@)
                &&& gone@ == stale(
                    old(self)@.table,
                    final(transforms)@,
                    old(self)@.issued as int,
                )
                &&& final(self)@ == (PhysicsState {
                    table: pruned(old(self)@.table, final(transforms)@),
                    issued: old(self)@.issued,
                    stepping: false,
                })
            },
    {
        let mut gone: Vec<BodyHandle> = Vec::new();
        if !self.stepping {
            return gone;
        }
        // Write the positions back.
        let mut k: usize = 0;
        while k < states.len()
            invariant
                k <= states@.len(),
                transforms@.len() == old(transforms)@.len(),
                transforms@ == synced(
                    old(transforms)@,
                    self.table@,
                    states@.subrange(0, k as int),
                ),
            decreases states.len() - k,
        {
            let state: BodyState = states[k];
            proof {
                assert(states@.subrange(0, k + 1).drop_last() =~= states@.subrange(0, k as int));
            }
            match self.table.entity_of(state.handle) {
                Some(entity) => {
                    if transforms.contains(entity.id) {
                        transforms.insert(entity.id, Transform { x: state.x, y: state.y });
                    }
                },
                None => {},
            }
            k += 1;
        }
        proof {
            assert(states@.subrange(0, k as int) =~= states@);
        }
        // Prune what has no transform any more.
        let ghost table = self.table@;
        let issued: usize = self.table.handles_issued();
        let mut h: usize = 0;
        while h < issued
            invariant
                h <= issued,
                issued == self.table.issued(),
                self.table.wf(),
                gone@ == stale(table, transforms@, h as int),
                self.table@ == Map::new(
                    |w: BodyHandle|
                        table.contains_key(w) && !(w.index < h && is_stale(table, transforms@, w)),
                    |w: BodyHandle| table[w],
                ),
            decreases issued - h,
        {
            let handle = BodyHandle { index: h as u64 };
            let stale_now: bool = match self.table.entity_of(handle) {
                Some(entity) => !transforms.contains(entity.id),
                None => false,
            };
            if stale_now {
                self.table.detach(handle);
                gone.push(handle);
            }
            assert(self.table@ =~= Map::new(
                |w: BodyHandle|
                    table.contains_key(w) && !(w.index < h + 1 && is_stale(table, transforms@, w)),
                |w: BodyHandle| table[w],
            ));
            h += 1;
        }
        proof {
            old(self).table.lemma_wf();
            assert(self.table@ =~= pruned(table, transforms@));
        }
        self.stepping = false;
        gone
    }
}

} // verus!
