//! The world: the entity registry, one table per component kind, the shared
//! event queues and the buffer of deferred structural changes.
//!
//! Systems never change the structure of the world while they run. They
//! record a [`Command`], and [`World::flush`] applies what was recorded, in
//! order, once all systems of a tick are done.

use vstd::prelude::*;
use crate::bodies::BodyHandle;
use crate::components::{ComponentKind, Player, RenderRect, RigidBodyDescriptor, Tile, Transform};
use crate::events::{Force, ForceEvents, Key, KeyPressEvents, RenderArgs, RenderEvents};
use crate::input::{after_input, InputSys};
use crate::physics::{finished, lemma_synced_shape, prepared, BodyState, PhysicsSys, StepRequest};
use crate::render::{after_render, frame_of, Frame, RenderSys};
use crate::storage::{lookup, Entity, Storage};

verus! {

/// A component together with its kind.
#[derive(Clone, Copy, Debug, PartialEq, Eq)]
pub enum Component {
    Transform(Transform),
    RenderRect(RenderRect),
    Tile(Tile),
    Player(Player),
    RigidBody(RigidBodyDescriptor),
}

/// A structural change that waits for the end of the tick.
#[derive(Clone, Copy, Debug, PartialEq, Eq, Structural)]
pub enum Command {
    /// Detach the component of the given kind from the entity.
    Remove { kind: ComponentKind, entity: Entity },
    /// Destroy the entity with all its components.
    Destroy { entity: Entity },
}

/// The components that a new entity starts with. Attachments are collected
/// here and take effect together, in [`World::create_entity`].
#[derive(Clone, Copy, Debug, PartialEq, Eq)]
pub struct EntityBuilder {
    pub transform: Option<Transform>,
    pub rect: Option<RenderRect>,
    pub tile: Option<Tile>,
    pub player: Option<Player>,
    pub body: Option<RigidBodyDescriptor>,
}

impl EntityBuilder {
    /// The builder with `component` attached, in place of an earlier one of
    /// the same kind.
    pub open spec fn and(self, component: Component) -> EntityBuilder {
        match component {
            Component::Transform(t) => EntityBuilder { transform: Some(t), ..self },
            Component::RenderRect(r) => EntityBuilder { rect: Some(r), ..self },
            Component::Tile(t) => EntityBuilder { tile: Some(t), ..self },
            Component::Player(p) => EntityBuilder { player: Some(p), ..self },
            Component::RigidBody(b) => EntityBuilder { body: Some(b), ..self },
        }
    }

    /// A builder without components.
    pub fn new() -> (builder: EntityBuilder)
        ensures
            builder == (EntityBuilder {
                transform: None,
                rect: None,
                tile: None,
                player: None,
                body: None,
            }),
    {
        EntityBuilder { transform: None, rect: None, tile: None, player: None, body: None }
    }

    /// Attaches `component`.
    pub fn with(self, component: Component) -> (builder: EntityBuilder)
        ensures
            builder == self.and(component),
    {
        let mut builder = self;
        match component {
            Component::Transform(t) => {
                builder.transform = Some(t);
            },
            Component::RenderRect(r) => {
                builder.rect = Some(r);
            },
            Component::Tile(t) => {
                builder.tile = Some(t);
            },
            Component::Player(p) => {
                builder.player = Some(p);
            },
            Component::RigidBody(b) => {
                builder.body = Some(b);
            },
        }
        builder
    }
}

/// Whether a force table is defined on every entity id.
pub open spec fn total(forces: Map<u32, Seq<Force>>) -> bool {
    forall|id: u32| forces.contains_key(id)
}

/// The state of a world as plain mathematical values: for each entity slot
/// whether the entity is alive and which components it holds, the waiting
/// events, the recorded forces, and the deferred commands.
pub ghost struct WorldState {
    /// The number of entities that the registry takes at most.
    pub limit: nat,
    pub alive: Seq<bool>,
    pub transforms: Seq<Option<Transform>>,
    pub rects: Seq<Option<RenderRect>>,
    pub tiles: Seq<Option<Tile>>,
    pub players: Seq<Option<Player>>,
    pub bodies: Seq<Option<RigidBodyDescriptor>>,
    pub key_presses: Seq<Key>,
    pub render_events: Seq<RenderArgs>,
    pub forces: Map<u32, Seq<Force>>,
    pub pending: Seq<Command>,
}

impl WorldState {
    /// The number of entity slots, which is also the next entity id.
    pub open spec fn slots(self) -> nat {
        self.alive.len()
    }

    /// The registry is within its limit, entity ids fit their type, every
    /// table has one slot per entity, an entity that is not alive holds
    /// nothing, and the force table is defined on every id.
    pub open spec fn wf(self) -> bool {
        &&& self.alive.len() <= self.limit <= u32::MAX
        &&& self.transforms.len() == self.alive.len()
        &&& self.rects.len() == self.alive.len()
        &&& self.tiles.len() == self.alive.len()
        &&& self.players.len() == self.alive.len()
        &&& self.bodies.len() == self.alive.len()
        &&& forall|i: int|
            0 <= i < self.alive.len() && !self.alive[i] ==> {
                &&& (#[trigger] self.transforms[i]).is_none()
                &&& self.rects[i].is_none()
                &&& self.tiles[i].is_none()
                &&& self.players[i].is_none()
                &&& self.bodies[i].is_none()
            }
        &&& total(self.forces)
    }

    /// The empty world with room for `limit` entities.
    pub open spec fn empty(limit: nat) -> WorldState {
        WorldState {
            limit,
            alive: Seq::empty(),
            transforms: Seq::empty(),
            rects: Seq::empty(),
            tiles: Seq::empty(),
            players: Seq::empty(),
            bodies: Seq::empty(),
            key_presses: Seq::empty(),
            render_events: Seq::empty(),
            forces: Map::new(|id: u32| true, |id: u32| Seq::empty()),
            pending: Seq::empty(),
        }
    }

    /// The world with one more entity, which holds what `builder` collected.
    /// The new entity takes the id `self.slots()`.
    pub open spec fn spawn(self, builder: EntityBuilder) -> WorldState {
        WorldState {
            alive: self.alive.push(true),
            transforms: self.transforms.push(builder.transform),
            rects: self.rects.push(builder.rect),
            tiles: self.tiles.push(builder.tile),
            players: self.players.push(builder.player),
            bodies: self.bodies.push(builder.body),
            ..self
        }
    }

    /// The world with one more entity for each builder, first to last.
    pub open spec fn spawn_all(self, builders: Seq<EntityBuilder>) -> WorldState
        decreases builders.len(),
    {
        if builders.len() == 0 {
            self
        } else {
            self.spawn_all(builders.drop_last()).spawn(builders.last())
        }
    }

    /// Creating entities adds one slot per builder behind the slots that
    /// were there, each holding what its builder collected, and changes
    /// nothing else.
    pub proof fn lemma_spawn_all(self, builders: Seq<EntityBuilder>)
        requires
            self.wf(),
            self.slots() + builders.len() <= self.limit,
        ensures
            self.spawn_all(builders).wf(),
            self.spawn_all(builders).limit == self.limit,
            self.spawn_all(builders).alive == self.alive + Seq::new(
                builders.len(),
                |k: int| true,
            ),
            self.spawn_all(builders).transforms == self.transforms + Seq::new(
                builders.len(),
                |k: int| builders[k].transform,
            ),
            self.spawn_all(builders).rects == self.rects + Seq::new(
                builders.len(),
                |k: int| builders[k].rect,
            ),
            self.spawn_all(builders).tiles == self.tiles + Seq::new(
                builders.len(),
                |k: int| builders[k].tile,
            ),
            self.spawn_all(builders).players == self.players + Seq::new(
                builders.len(),
                |k: int| builders[k].player,
            ),
            self.spawn_all(builders).bodies == self.bodies + Seq::new(
                builders.len(),
                |k: int| builders[k].body,
            ),
            self.spawn_all(builders).key_presses == self.key_presses,
            self.spawn_all(builders).render_events == self.render_events,
            self.spawn_all(builders).forces == self.forces,
            self.spawn_all(builders).pending == self.pending,
        decreases builders.len(),
    {
        if builders.len() > 0 {
            let front = builders.drop_last();
            self.lemma_spawn_all(front);
            let before = self.spawn_all(front);
            let after = before.spawn(builders.last());
            assert(after.alive =~= self.alive + Seq::new(builders.len(), |k: int| true));
            assert(after.transforms =~= self.transforms + Seq::new(
                builders.len(),
                |k: int| builders[k].transform,
            ));
            assert(after.rects =~= self.rects + Seq::new(
                builders.len(),
                |k: int| builders[k].rect,
            ));
            assert(after.tiles =~= self.tiles + Seq::new(
                builders.len(),
                |k: int| builders[k].tile,
            ));
            assert(after.players =~= self.players + Seq::new(
                builders.len(),
                |k: int| builders[k].player,
            ));
            assert(after.bodies =~= self.bodies + Seq::new(
                builders.len(),
                |k: int| builders[k].body,
            ));
        } else {
            assert(self.alive =~= self.alive + Seq::new(builders.len(), |k: int| true));
            assert(self.transforms =~= self.transforms + Seq::new(
                builders.len(),
                |k: int| builders[k].transform,
            ));
            assert(self.rects =~= self.rects + Seq::new(
                builders.len(),
                |k: int| builders[k].rect,
            ));
            assert(self.tiles =~= self.tiles + Seq::new(
                builders.len(),
                |k: int| builders[k].tile,
            ));
            assert(self.players =~= self.players + Seq::new(
                builders.len(),
                |k: int| builders[k].player,
            ));
            assert(self.bodies =~= self.bodies + Seq::new(
                builders.len(),
                |k: int| builders[k].body,
            ));
        }
    }

    /// Whether `entity` has been created and not destroyed.
    pub open spec fn is_alive(self, entity: Entity) -> bool {
        entity.id < self.alive.len() && self.alive[entity.id as int]
    }

    /// The world with `component` attached to `entity`, in place of what it
    /// held of that kind. Nothing changes for an entity that is not alive.
    pub open spec fn attach(self, entity: Entity, component: Component) -> WorldState {
        let id = entity.id as int;
        if !self.is_alive(entity) {
            self
        } else {
            match component {
                Component::Transform(t) => WorldState {
                    transforms: self.transforms.update(id, Some(t)),
                    ..self
                },
                Component::RenderRect(r) => WorldState {
                    rects: self.rects.update(id, Some(r)),
                    ..self
                },
                Component::Tile(t) => WorldState { tiles: self.tiles.update(id, Some(t)), ..self },
                Component::Player(p) => WorldState {
                    players: self.players.update(id, Some(p)),
                    ..self
                },
                Component::RigidBody(b) => WorldState {
                    bodies: self.bodies.update(id, Some(b)),
                    ..self
                },
            }
        }
    }

    /// The world with the component of `kind` detached from `entity`. Nothing
    /// changes where there is no such slot.
    pub open spec fn detach(self, entity: Entity, kind: ComponentKind) -> WorldState {
        let id = entity.id as int;
        if id >= self.alive.len() {
            self
        } else {
            match kind {
                ComponentKind::Transform => WorldState {
                    transforms: self.transforms.update(id, None),
                    ..self
                },
                ComponentKind::RenderRect => WorldState {
                    rects: self.rects.update(id, None),
                    ..self
                },
                ComponentKind::Tile => WorldState { tiles: self.tiles.update(id, None), ..self },
                ComponentKind::Player => WorldState {
                    players: self.players.update(id, None),
                    ..self
                },
                ComponentKind::RigidBody => WorldState {
                    bodies: self.bodies.update(id, None),
                    ..self
                },
            }
        }
    }

    /// The world with `entity` destroyed: it is no longer alive and holds
    /// nothing. Nothing changes where there is no such slot.
    pub open spec fn destroy(self, entity: Entity) -> WorldState {
        let id = entity.id as int;
        if id >= self.alive.len() {
            self
        } else {
            WorldState {
                alive: self.alive.update(id, false),
                transforms: self.transforms.update(id, None),
                rects: self.rects.update(id, None),
                tiles: self.tiles.update(id, None),
                players: self.players.update(id, None),
                bodies: self.bodies.update(id, None),
                ..self
            }
        }
    }

    /// The world after one deferred command has taken effect.
    pub open spec fn apply(self, command: Command) -> WorldState {
        match command {
            Command::Remove { kind, entity } => self.detach(entity, kind),
            Command::Destroy { entity } => self.destroy(entity),
        }
    }

    /// The world after `commands` have taken effect, first to last.
    pub open spec fn apply_all(self, commands: Seq<Command>) -> WorldState
        decreases commands.len(),
    {
        if commands.len() == 0 {
            self
        } else {
            self.apply_all(commands.drop_last()).apply(commands.last())
        }
    }

    /// The world after the deferred commands have taken effect and the buffer
    /// has been emptied.
    pub open spec fn flushed(self) -> WorldState {
        WorldState { pending: Seq::empty(), ..self.apply_all(self.pending) }
    }

    /// Applying commands changes neither the events, nor the forces, nor
    /// the buffer itself.
    pub proof fn lemma_apply_all_keeps_events(self, commands: Seq<Command>)
        ensures
            self.apply_all(commands).key_presses == self.key_presses,
            self.apply_all(commands).render_events == self.render_events,
            self.apply_all(commands).forces == self.forces,
            self.apply_all(commands).pending == self.pending,
        decreases commands.len(),
    {
        if commands.len() > 0 {
            self.lemma_apply_all_keeps_events(commands.drop_last());
        }
    }

    /// A command keeps a world well formed and its number of slots.
    pub proof fn lemma_apply(self, command: Command)
        requires
            self.wf(),
        ensures
            self.apply(command).wf(),
            self.apply(command).slots() == self.slots(),
    {
        let after = self.apply(command);
        assert(after.forces == self.forces);
        assert(after.alive.len() == self.alive.len());
        assert forall|i: int| 0 <= i < after.alive.len() && !after.alive[i] implies {
            &&& (#[trigger] after.transforms[i]).is_none()
            &&& after.rects[i].is_none()
            &&& after.tiles[i].is_none()
            &&& after.players[i].is_none()
            &&& after.bodies[i].is_none()
        } by {
            if !self.alive[i] {
                assert(self.transforms[i].is_none());
            }
        }
    }

    /// Applying commands keeps a world well formed and its number of slots.
    pub proof fn lemma_apply_all(self, commands: Seq<Command>)
        requires
            self.wf(),
        ensures
            self.apply_all(commands).wf(),
            self.apply_all(commands).slots() == self.slots(),
        decreases commands.len(),
    {
        if commands.len() > 0 {
            self.lemma_apply_all(commands.drop_last());
            self.apply_all(commands.drop_last()).lemma_apply(commands.last());
        }
    }
}

/// The world that the systems work on.
pub struct World {
    limit: u32,
    alive: Vec<bool>,
    transforms: Storage<Transform>,
    rects: Storage<RenderRect>,
    tiles: Storage<Tile>,
    players: Storage<Player>,
    bodies: Storage<RigidBodyDescriptor>,
    key_presses: KeyPressEvents,
    render_events: RenderEvents,
    forces: ForceEvents,
    pending: Vec<Command>,
}

impl View for World {
    type V = WorldState;

    closed spec fn view(&self) -> WorldState {
        WorldState {
            limit: self.limit as nat,
            alive: self.alive@,
            transforms: self.transforms@,
            rects: self.rects@,
            tiles: self.tiles@,
            players: self.players@,
            bodies: self.bodies@,
            key_presses: self.key_presses@,
            render_events: self.render_events@,
            forces: self.forces@,
            pending: self.pending@,
        }
    }
}

impl World {
    /// A world with all component kinds and resources in place, and nothing
    /// in them. Its registry takes as many entities as there are ids.
    pub fn new() -> (world: World)
        ensures
            world@ == WorldState::empty(u32::MAX as nat),
            world@.wf(),
    {
        World::with_limit(u32::MAX)
    }

    /// An empty world whose registry takes `limit` entities at most.
    pub fn with_limit(limit: u32) -> (world: World)
        ensures
            world@ == WorldState::empty(limit as nat),
            world@.wf(),
    {
        World {
            limit,
            alive: Vec::new(),
            transforms: Storage::new(),
            rects: Storage::new(),
            tiles: Storage::new(),
            players: Storage::new(),
            bodies: Storage::new(),
            key_presses: KeyPressEvents::new(),
            render_events: RenderEvents::new(),
            forces: ForceEvents::new(),
            pending: Vec::new(),
        }
    }

    /// The number of entities that the registry takes at most.
    pub fn limit(&self) -> (n: u32)
        ensures
            n == self@.limit,
    {
        self.limit
    }

    /// The number of entity slots: the entities created so far, destroyed
    /// ones included.
    pub fn slots(&self) -> (n: usize)
        ensures
            n == self@.slots(),
    {
        self.alive.len()
    }

    /// How many more entities the registry can take.
    pub fn capacity_left(&self) -> (n: u32)
        requires
            self@.wf(),
        ensures
            n == self@.limit - self@.slots(),
    {
        self.limit - (self.alive.len() as u32)
    }

    /// Whether `entity` has been created and not destroyed.
    pub fn is_alive(&self, entity: Entity) -> (alive: bool)
        ensures
            alive == self@.is_alive(entity),
    {
        let index: usize = entity.id as usize;
        index < self.alive.len() && self.alive[index]
    }

    /// Creates an entity that holds what `builder` collected, all at once.
    /// Returns `None`, and changes nothing, when the registry is full.
    pub fn create_entity(&mut self, builder: EntityBuilder) -> (created: Option<Entity>)
        requires
            old(self)@.wf(),
        ensures
            final(self)@.wf(),
            old(self)@.slots() == old(self)@.limit ==> created.is_none() && final(self)@ == old(
                self,
            )@,
            old(self)@.slots() < old(self)@.limit ==> created == Some(
                Entity { id: old(self)@.slots() as u32 },
            ) && final(self)@ == old(self)@.spawn(builder),
    {
        let n: usize = self.alive.len();
        if n >= self.limit as usize {
            return None;
        }
        self.alive.push(true);
        self.transforms.push(builder.transform);
        self.rects.push(builder.rect);
        self.tiles.push(builder.tile);
        self.players.push(builder.player);
        self.bodies.push(builder.body);
        Some(Entity { id: n as u32 })
    }

    /// Creates one entity per builder, first to last, or none at all: when
    /// the registry cannot take them all, nothing changes and the result is
    /// `None`. Otherwise the result is the id of the first entity created,
    /// which is the number of slots before the call.
    pub fn create_all(&mut self, builders: &Vec<EntityBuilder>) -> (first: Option<u32>)
        requires
            old(self)@.wf(),
        ensures
            final(self)@.wf(),
            old(self)@.slots() + builders@.len() > old(self)@.limit ==> {
                &&& first.is_none()
                &&& final(self)@ == old(self)@
            },
            old(self)@.slots() + builders@.len() <= old(self)@.limit ==> first == Some(
                old(self)@.slots() as u32,
            ) && final(self)@ == old(self)@.spawn_all(builders@),
    {
        let start: usize = self.alive.len();
        if builders.len() > (self.limit as usize) - start {
            return None;
        }
        let ghost begin = self@;
        let mut k: usize = 0;
        while k < builders.len()
            invariant
                begin.wf(),
                begin.slots() + builders@.len() <= begin.limit,
                k <= builders@.len(),
                self@.wf(),
                self@ == begin.spawn_all(builders@.subrange(0, k as int)),
            decreases builders.len() - k,
        {
            proof {
                begin.lemma_spawn_all(builders@.subrange(0, k as int));
                assert(builders@.subrange(0, k + 1).drop_last() =~= builders@.subrange(
                    0,
                    k as int,
                ));
            }
            self.create_entity(builders[k]);
            k += 1;
        }
        proof {
            assert(builders@.subrange(0, k as int) =~= builders@);
        }
        Some(start as u32)
    }

    /// The transform of `entity`, if it has one.
    pub fn transform(&self, entity: Entity) -> (found: Option<Transform>)
        ensures
            found == lookup(self@.transforms, entity.id as int),
    {
        self.transforms.get(entity.id)
    }

    /// The rectangle of `entity`, if it has one.
    pub fn rect(&self, entity: Entity) -> (found: Option<RenderRect>)
        ensures
            found == lookup(self@.rects, entity.id as int),
    {
        self.rects.get(entity.id)
    }

    /// The tile of `entity`, if it has one.
    pub fn tile(&self, entity: Entity) -> (found: Option<Tile>)
        ensures
            found == lookup(self@.tiles, entity.id as int),
    {
        self.tiles.get(entity.id)
    }

    /// Whether `entity` is marked as the player.
    pub fn is_player(&self, entity: Entity) -> (marked: bool)
        ensures
            marked == lookup(self@.players, entity.id as int).is_some(),
    {
        self.players.contains(entity.id)
    }

    /// The rigid-body descriptor of `entity`, if it has one.
    pub fn body(&self, entity: Entity) -> (found: Option<RigidBodyDescriptor>)
        ensures
            found == lookup(self@.bodies, entity.id as int),
    {
        self.bodies.get(entity.id)
    }

    /// The forces recorded against `entity`, oldest first.
    pub fn forces_of(&self, entity: Entity) -> (forces: Vec<Force>)
        ensures
            forces@ == self@.forces[entity.id],
    {
        self.forces.get(entity.id)
    }

    /// The number of key presses that wait.
    pub fn key_presses_waiting(&self) -> (n: usize)
        ensures
            n == self@.key_presses.len(),
    {
        self.key_presses.len()
    }

    /// The number of render requests that wait.
    pub fn render_events_waiting(&self) -> (n: usize)
        ensures
            n == self@.render_events.len(),
    {
        self.render_events.len()
    }

    /// The number of deferred commands that wait.
    pub fn commands_waiting(&self) -> (n: usize)
        ensures
            n == self@.pending.len(),
    {
        self.pending.len()
    }

    /// Attaches `component` to `entity` at once, in place of what it held of
    /// that kind. Nothing changes for an entity that is not alive.
    pub fn attach(&mut self, entity: Entity, component: Component)
        requires
            old(self)@.wf(),
        ensures
            final(self)@.wf(),
            final(self)@ == old(self)@.attach(entity, component),
    {
        if !self.is_alive(entity) {
            return ;
        }
        match component {
            Component::Transform(t) => {
                self.transforms.insert(entity.id, t);
            },
            Component::RenderRect(r) => {
                self.rects.insert(entity.id, r);
            },
            Component::Tile(t) => {
                self.tiles.insert(entity.id, t);
            },
            Component::Player(p) => {
                self.players.insert(entity.id, p);
            },
            Component::RigidBody(b) => {
                self.bodies.insert(entity.id, b);
            },
        }
    }

    /// Detaches the component of `kind` from `entity` at once.
    pub fn detach(&mut self, entity: Entity, kind: ComponentKind)
        requires
            old(self)@.wf(),
        ensures
            final(self)@.wf(),
            final(self)@ == old(self)@.detach(entity, kind),
    {
        match kind {
            ComponentKind::Transform => {
                self.transforms.remove(entity.id);
            },
            ComponentKind::RenderRect => {
                self.rects.remove(entity.id);
            },
            ComponentKind::Tile => {
                self.tiles.remove(entity.id);
            },
            ComponentKind::Player => {
                self.players.remove(entity.id);
            },
            ComponentKind::RigidBody => {
                self.bodies.remove(entity.id);
            },
        }
    }

    /// Destroys `entity` at once, with all its components.
    pub fn destroy(&mut self, entity: Entity)
        requires
            old(self)@.wf(),
        ensures
            final(self)@.wf(),
            final(self)@ == old(self)@.destroy(entity),
    {
        let index: usize = entity.id as usize;
        if index < self.alive.len() {
            self.alive.set(index, false);
            self.transforms.remove(entity.id);
            self.rects.remove(entity.id);
            self.tiles.remove(entity.id);
            self.players.remove(entity.id);
            self.bodies.remove(entity.id);
        }
    }

    /// Records a structural change for the end of the tick.
    pub fn defer(&mut self, command: Command)
        ensures
            final(self)@ == (WorldState { pending: old(self)@.pending.push(command), ..old(self)@ }),
    {
        self.pending.push(command);
    }

    /// Applies the deferred commands, first to last, and empties the buffer.
    pub fn flush(&mut self)
        requires
            old(self)@.wf(),
        ensures
            final(self)@.wf(),
            final(self)@ == old(self)@.flushed(),
    {
        let ghost start = self@;
        let n: usize = self.pending.len();
        let mut i: usize = 0;
        while i < n
            invariant
                start.wf(),
                i <= n,
                n == start.pending.len(),
                self@.wf(),
                self@ == start.apply_all(start.pending.subrange(0, i as int)),
            decreases n - i,
        {
            proof {
                start.lemma_apply_all(start.pending.subrange(0, i as int));
                start.lemma_apply_all_keeps_events(start.pending.subrange(0, i as int));
            }
            let command: Command = self.pending[i];
            proof {
                assert(start.pending.subrange(0, i + 1).drop_last() =~= start.pending.subrange(
                    0,
                    i as int,
                ));
            }
            match command {
                Command::Remove { kind, entity } => {
                    self.detach(entity, kind);
                },
                Command::Destroy { entity } => {
                    self.destroy(entity);
                },
            }
            i += 1;
        }
        proof {
            assert(start.pending.subrange(0, n as int) =~= start.pending);
        }
        self.pending.clear();
    }

    /// Runs the input system on the key presses, the force table, the
    /// player marks and the transforms of this world.
    pub fn run_input(&mut self, input: &InputSys)
        requires
            old(self)@.wf(),
        ensures
            final(self)@.wf(),
            final(self)@ == after_input(old(self)@, input.mode),
    {
        input.run(&mut self.key_presses, &mut self.forces, &self.players, &mut self.transforms);
        proof {
            self.forces.lemma_total();
        }
    }

    /// Runs the first half of the physics system on the render requests,
    /// the force table, the descriptors, the transforms and the command
    /// buffer of this world.
    pub fn prepare_physics(&mut self, physics: &mut PhysicsSys) -> (request: Option<StepRequest>)
        requires
            old(self)@.wf(),
            old(physics).wf(),
        ensures
            final(self)@.wf(),
            final(physics).wf(),
            final(self)@ == prepared(old(self)@, old(physics)@).world,
            final(physics)@ == prepared(old(self)@, old(physics)@).physics,
            match request {
                Some(request) => prepared(old(self)@, old(physics)@).plan == Some(request@),
                None => prepared(old(self)@, old(physics)@).plan.is_none(),
            },
    {
        let request: Option<StepRequest> = physics.prepare(
            &self.render_events,
            &mut self.forces,
            &self.bodies,
            &self.transforms,
            &mut self.pending,
        );
        proof {
            self.forces.lemma_total();
        }
        request
    }

    /// Runs the second half of the physics system on the transforms of
    /// this world.
    pub fn finish_physics(&mut self, physics: &mut PhysicsSys, states: &Vec<BodyState>) -> (gone:
        Vec<BodyHandle>)
        requires
            old(self)@.wf(),
            old(physics).wf(),
        ensures
            final(self)@.wf(),
            final(physics).wf(),
            final(self)@ == finished(old(self)@, old(physics)@, states@).world,
            final(physics)@ == finished(old(self)@, old(physics)@, states@).physics,
            gone@ == finished(old(self)@, old(physics)@, states@).gone,
    {
        proof {
            lemma_synced_shape(self@.transforms, physics@.table, states@);
        }
        physics.finish(&mut self.transforms, states)
    }

    /// Runs the render system on the render requests and on the
    /// transforms, tiles and rectangles of this world.
    pub fn run_render(&mut self, render: &RenderSys) -> (frame: Option<Frame>)
        requires
            old(self)@.wf(),
        ensures
            final(self)@.wf(),
            final(self)@ == after_render(old(self)@),
            match frame {
                Some(frame) => frame_of(old(self)@, render.pixels_per_unit) == Some(frame@),
                None => frame_of(old(self)@, render.pixels_per_unit).is_none(),
            },
    {
        render.run(&mut self.render_events, &self.transforms, &self.tiles, &self.rects)
    }

    /// Appends a key press to the queue of the input system.
    pub fn push_key_press(&mut self, key: Key)
        ensures
            final(self)@ == (WorldState {
                key_presses: old(self)@.key_presses.push(key),
                ..old(self)@
            }),
    {
        self.key_presses.push(key);
    }

    /// Appends a render request to the queue of the render system.
    pub fn push_render_event(&mut self, args: RenderArgs)
        ensures
            final(self)@ == (WorldState {
                render_events: old(self)@.render_events.push(args),
                ..old(self)@
            }),
    {
        self.render_events.push(args);
    }
}

/// A new world, ready for entities and events.
pub fn create_world() -> (world: World)
    ensures
        world@ == WorldState::empty(u32::MAX as nat),
        world@.wf(),
{
    World::new()
}

} // verus!
