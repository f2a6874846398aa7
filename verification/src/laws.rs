//! What holds of the systems whatever the world looks like.
//!
//! The functions of this module are proofs. They are stated over the plain
//! values that the contracts of the systems speak of, so each of them holds
//! of every run of the executable code.

use vstd::prelude::*;
use crate::bodies::{owner_of, BodyHandle};
use crate::components::{ComponentKind, RigidBodyDescriptor, Transform};
use crate::dispatcher::{begun, ended, DispatcherState};
use crate::events::Key;
use crate::input::{after_input, InputMode};
use crate::physics::{
    awaits_body,
    finished,
    is_stale,
    lemma_synced_shape,
    prepared,
    register,
    stale,
    synced,
    BodyState,
    PhysicsState,
    Registration,
    TIME_SCALE,
};
use crate::render::{after_render, frame_of};
use crate::storage::{lookup, Entity};
use crate::world::{Command, WorldState};

verus! {

/// A world with one more key press at the end of its queue.
pub open spec fn with_key_press(state: WorldState, key: Key) -> WorldState {
    WorldState { key_presses: state.key_presses.push(key), ..state }
}

/// With no key press waiting, the input system changes nothing.
pub proof fn lemma_input_without_key_press(state: WorldState, mode: InputMode)
    requires
        state.key_presses.len() == 0,
    ensures
        after_input(state, mode) == state,
{
}

/// With no render request waiting, the render system draws no frame and
/// changes nothing, and the first half of the physics system registers
/// nothing, requests no step and changes nothing.
pub proof fn lemma_systems_without_render_request(
    state: WorldState,
    physics: PhysicsState,
    pixels_per_unit: i64,
)
    requires
        state.render_events.len() == 0,
    ensures
        after_render(state) == state,
        frame_of(state, pixels_per_unit).is_none(),
        prepared(state, physics).world == state,
        prepared(state, physics).physics == physics,
        prepared(state, physics).plan.is_none(),
{
}

/// The input system takes exactly one key press, the oldest, however many
/// wait, and what it does depends on that key press alone.
pub proof fn lemma_input_takes_one(state: WorldState, mode: InputMode)
    requires
        state.key_presses.len() > 0,
    ensures
        after_input(state, mode).key_presses == state.key_presses.drop_first(),
        after_input(state, mode).key_presses.len() == state.key_presses.len() - 1,
        after_input(state, mode) == (WorldState {
            key_presses: state.key_presses.drop_first(),
            ..after_input(
                WorldState { key_presses: seq![state.key_presses[0]], ..state },
                mode,
            )
        }),
{
    let first = WorldState { key_presses: seq![state.key_presses[0]], ..state };
    assert(first.key_presses[0] == state.key_presses[0]);
}

/// Key presses are handled first in, first out: a key press that is added
/// behind others waits until they are handled, so adding it before or after
/// a run of the input system makes no difference; added to an empty queue
/// it is the next to be handled.
pub proof fn lemma_input_fifo(state: WorldState, mode: InputMode, key: Key)
    ensures
        state.key_presses.len() > 0 ==> after_input(with_key_press(state, key), mode)
            == with_key_press(after_input(state, mode), key),
        state.key_presses.len() == 0 ==> after_input(with_key_press(state, key), mode)
            == after_input(WorldState { key_presses: seq![key], ..state }, mode),
{
    if state.key_presses.len() > 0 {
        assert(state.key_presses.push(key).drop_first() =~= state.key_presses.drop_first().push(
            key,
        ));
        assert(state.key_presses.push(key)[0] == state.key_presses[0]);
    } else {
        assert(state.key_presses.push(key) =~= seq![key]);
    }
}

/// Where no entity among the first `n` holds both a transform and a
/// descriptor, registration does nothing.
pub proof fn lemma_register_skips(
    start: Registration,
    bodies: Seq<Option<RigidBodyDescriptor>>,
    transforms: Seq<Option<Transform>>,
    n: int,
)
    requires
        forall|id: int| 0 <= id < n ==> !awaits_body(bodies, transforms, id),
    ensures
        register(start, bodies, transforms, n) == start,
    decreases n,
{
    if n > 0 {
        lemma_register_skips(start, bodies, transforms, n - 1);
    }
}

/// Registration keeps the commands that waited and defers, for every
/// entity that it registers, the removal of the descriptor.
pub proof fn lemma_register_defers(
    start: Registration,
    bodies: Seq<Option<RigidBodyDescriptor>>,
    transforms: Seq<Option<Transform>>,
    n: int,
)
    requires
        0 <= n <= u32::MAX,
    ensures
        ({
            let end = register(start, bodies, transforms, n);
            &&& start.commands.len() <= end.commands.len()
            &&& end.commands.subrange(0, start.commands.len() as int) == start.commands
            &&& forall|id: int|
                0 <= id < n && awaits_body(bodies, transforms, id) ==> end.commands.contains(
                    #[trigger] removal(id),
                )
        }),
    decreases n,
{
    let end = register(start, bodies, transforms, n);
    if n > 0 {
        lemma_register_defers(start, bodies, transforms, n - 1);
        let before = register(start, bodies, transforms, n - 1);
        if awaits_body(bodies, transforms, n - 1) {
            assert(end.commands == before.commands.push(removal(n - 1)));
            assert(end.commands.subrange(0, start.commands.len() as int) =~= before.commands.subrange(
                0,
                start.commands.len() as int,
            ));
            assert(end.commands[before.commands.len() as int] == removal(n - 1));
            assert forall|id: int|
                0 <= id < n && awaits_body(bodies, transforms, id) implies end.commands.contains(
                #[trigger] removal(id),
            ) by {
                if id < n - 1 {
                    let k = choose|k: int|
                        0 <= k < before.commands.len() && before.commands[k] == removal(id);
                    assert(end.commands[k] == removal(id));
                }
            }
        }
    } else {
        assert(end.commands.subrange(0, start.commands.len() as int) =~= start.commands);
    }
}

/// Registration creates one body for each entity that holds a transform
/// and a descriptor, by rising entity id: each with the next handle, at the
/// place of its entity's transform, and with its entity's descriptor.
pub proof fn lemma_register_creates(
    start: Registration,
    bodies: Seq<Option<RigidBodyDescriptor>>,
    transforms: Seq<Option<Transform>>,
    n: int,
)
    requires
        0 <= n <= u32::MAX,
        start.issued + n <= u64::MAX,
    ensures
        ({
            let end = register(start, bodies, transforms, n);
            let first = start.create.len() as int;
            &&& first <= end.create.len() <= first + n
            &&& end.create.subrange(0, first) == start.create
            &&& end.issued == start.issued + (end.create.len() - first)
            &&& forall|j: int|
                first <= j < end.create.len() ==> {
                    let body = #[trigger] end.create[j];
                    &&& body.handle.index == start.issued + (j - first)
                    &&& body.entity.id < n
                    &&& awaits_body(bodies, transforms, body.entity.id as int)
                    &&& transforms[body.entity.id as int] == Some(
                        Transform { x: body.x, y: body.y },
                    )
                    &&& bodies[body.entity.id as int] == Some(body.descriptor)
                }
            &&& forall|i: int, j: int|
                first <= i < j < end.create.len() ==> (#[trigger] end.create[i]).entity.id < (
                #[trigger] end.create[j]).entity.id
            &&& forall|id: int|
                0 <= id < n && awaits_body(bodies, transforms, id) ==> exists|j: int|
                    first <= j < end.create.len() && (#[trigger] end.create[j]).entity.id == id
        }),
    decreases n,
{
    let end = register(start, bodies, transforms, n);
    let first = start.create.len() as int;
    if n > 0 {
        lemma_register_creates(start, bodies, transforms, n - 1);
        let before = register(start, bodies, transforms, n - 1);
        if awaits_body(bodies, transforms, n - 1) {
            let last = before.create.len() as int;
            assert(end.create.subrange(0, first) =~= before.create.subrange(0, first));
            assert(end.create[last].entity.id == n - 1);
            assert forall|id: int|
                0 <= id < n && awaits_body(bodies, transforms, id) implies exists|j: int|
                first <= j < end.create.len() && (#[trigger] end.create[j]).entity.id == id by {
                if id < n - 1 {
                    let j = choose|j: int|
                        first <= j < before.create.len() && (#[trigger] before.create[j]).entity.id
                            == id;
                    assert(end.create[j].entity.id == id);
                }
            }
            assert forall|i: int, j: int| first <= i < j < end.create.len() implies (
            #[trigger] end.create[i]).entity.id < (#[trigger] end.create[j]).entity.id by {
                assert(end.create[i] == before.create[i]);
                if j < last {
                    assert(end.create[j] == before.create[j]);
                }
            }
            assert forall|j: int| first <= j < end.create.len() implies ({
                let body = #[trigger] end.create[j];
                &&& body.handle.index == start.issued + (j - first)
                &&& body.entity.id < n
                &&& awaits_body(bodies, transforms, body.entity.id as int)
                &&& transforms[body.entity.id as int] == Some(Transform { x: body.x, y: body.y })
                &&& bodies[body.entity.id as int] == Some(body.descriptor)
            }) by {
                if j < last {
                    assert(end.create[j] == before.create[j]);
                }
            }
        } else {
            assert forall|id: int|
                0 <= id < n && awaits_body(bodies, transforms, id) implies exists|j: int|
                first <= j < end.create.len() && (#[trigger] end.create[j]).entity.id == id by {
                let j = choose|j: int|
                    first <= j < before.create.len() && (#[trigger] before.create[j]).entity.id
                        == id;
                assert(end.create[j].entity.id == id);
            }
        }
    } else {
        assert(end.create.subrange(0, first) =~= start.create);
    }
}

/// The command that removes the descriptor of the entity in slot `id`.
pub open spec fn removal(id: int) -> Command {
    Command::Remove { kind: ComponentKind::RigidBody, entity: Entity { id: id as u32 } }
}

/// Deferred commands only take away: a slot that holds no transform, or no
/// descriptor, holds none after the commands either, and a descriptor whose
/// removal is among the commands is gone after them.
pub proof fn lemma_commands_only_remove(state: WorldState, commands: Seq<Command>)
    requires
        state.wf(),
    ensures
        ({
            let after = state.apply_all(commands);
            &&& after.wf()
            &&& after.slots() == state.slots()
            &&& forall|i: int|
                0 <= i < state.slots() && (#[trigger] state.transforms[i]).is_none()
                    ==> after.transforms[i].is_none()
            &&& forall|i: int|
                0 <= i < state.slots() && (#[trigger] state.bodies[i]).is_none()
                    ==> after.bodies[i].is_none()
            &&& forall|id: int|
                0 <= id < state.slots() && commands.contains(#[trigger] removal(id))
                    ==> after.bodies[id].is_none()
        }),
    decreases commands.len(),
{
    state.lemma_apply_all(commands);
    if commands.len() > 0 {
        let front = commands.drop_last();
        lemma_commands_only_remove(state, front);
        state.lemma_apply_all(front);
        let before = state.apply_all(front);
        let after = before.apply(commands.last());
        assert forall|id: int|
            0 <= id < state.slots() && commands.contains(
                #[trigger] removal(id),
            ) implies after.bodies[id].is_none() by {
            let k = choose|k: int| 0 <= k < commands.len() && commands[k] == removal(id);
            if k < commands.len() - 1 {
                assert(front[k] == removal(id));
                assert(front.contains(removal(id)));
                assert(before.bodies[id].is_none());
            } else {
                assert(commands.last() == removal(id));
            }
        }
        assert forall|i: int|
            0 <= i < state.slots() && (#[trigger] state.transforms[i]).is_none() implies after.transforms[i].is_none() by {
            assert(before.transforms[i].is_none());
        }
        assert forall|i: int|
            0 <= i < state.slots() && (#[trigger] state.bodies[i]).is_none() implies after.bodies[i].is_none() by {
            assert(before.bodies[i].is_none());
        }
    }
}

/// Registration happens once: after a tick, no entity holds both a
/// transform and a descriptor, so the next tick registers nothing.
pub proof fn lemma_registered_once(
    world: WorldState,
    dispatcher: DispatcherState,
    states: Seq<BodyState>,
)
    requires
        world.wf(),
        !dispatcher.physics.stepping,
        world.render_events.len() > 0,
    ensures
        ({
            let first = begun(world, dispatcher);
            let middle = DispatcherState { physics: first.physics, ..dispatcher };
            let last = ended(first.world, middle, states);
            let start = Registration {
                table: last.physics.table,
                issued: last.physics.issued,
                create: Seq::empty(),
                retire: Seq::empty(),
                commands: last.world.pending,
            };
            &&& forall|id: int|
                awaits_body(world.bodies, world.transforms, id) ==> lookup(
                    last.world.bodies,
                    id,
                ).is_none()
            &&& forall|id: int| !awaits_body(last.world.bodies, last.world.transforms, id)
            &&& forall|n: int|
                register(start, last.world.bodies, last.world.transforms, n) == start
        }),
{
    let first = begun(world, dispatcher);
    let middle = DispatcherState { physics: first.physics, ..dispatcher };
    let last = ended(first.world, middle, states);
    let moved = after_input(world, dispatcher.mode);
    let begin = Registration {
        table: dispatcher.physics.table,
        issued: dispatcher.physics.issued,
        create: Seq::empty(),
        retire: Seq::empty(),
        commands: moved.pending,
    };
    let n = moved.bodies.len() as int;
    let end = register(begin, moved.bodies, moved.transforms, n);
    lemma_register_defers(begin, moved.bodies, moved.transforms, n);
    assert(first.world.pending == end.commands);
    let done = finished(first.world, first.physics, states);
    lemma_synced_shape(first.world.transforms, first.physics.table, states);
    let shown = after_render(done.world);
    assert(shown.wf());
    lemma_commands_only_remove(shown, shown.pending);
    assert forall|id: int| !awaits_body(last.world.bodies, last.world.transforms, id) by {
        if awaits_body(last.world.bodies, last.world.transforms, id) {
            assert(0 <= id < n);
            if shown.transforms[id].is_none() {
                assert(last.world.transforms[id].is_none());
            } else if shown.bodies[id].is_none() {
                assert(last.world.bodies[id].is_none());
            } else {
                assert(awaits_body(moved.bodies, moved.transforms, id));
                assert(end.commands.contains(removal(id)));
            }
        }
    }
    assert forall|id: int| awaits_body(world.bodies, world.transforms, id) implies lookup(
        last.world.bodies,
        id,
    ).is_none() by {
        assert(awaits_body(moved.bodies, moved.transforms, id));
        assert(end.commands.contains(removal(id)));
    }
    let start = Registration {
        table: last.physics.table,
        issued: last.physics.issued,
        create: Seq::empty(),
        retire: Seq::empty(),
        commands: last.world.pending,
    };
    assert forall|m: int|
        register(start, last.world.bodies, last.world.transforms, m) == start by {
        lemma_register_skips(start, last.world.bodies, last.world.transforms, m);
    }
}

/// Where the simulation reports every body at the place of its entity's
/// transform, writing the positions back changes no transform. This is
/// what a step of no duration comes to, as far as this crate can tell: that
/// such a step moves no body is for the simulation to keep.
pub proof fn lemma_sync_in_place(
    transforms: Seq<Option<Transform>>,
    table: Map<BodyHandle, Entity>,
    states: Seq<BodyState>,
)
    requires
        forall|k: int|
            0 <= k < states.len() ==> match owner_of(table, (#[trigger] states[k]).handle) {
                Some(entity) => lookup(transforms, entity.id as int).is_some() ==> transforms[entity.id as int]
                    == Some(Transform { x: states[k].x, y: states[k].y }),
                None => true,
            },
    ensures
        synced(transforms, table, states) == transforms,
    decreases states.len(),
{
    if states.len() > 0 {
        let front = states.drop_last();
        assert forall|k: int| 0 <= k < front.len() implies match owner_of(
            table,
            (#[trigger] front[k]).handle,
        ) {
            Some(entity) => lookup(transforms, entity.id as int).is_some() ==> transforms[entity.id as int]
                == Some(Transform { x: front[k].x, y: front[k].y }),
            None => true,
        } by {
            assert(front[k] == states[k]);
        }
        lemma_sync_in_place(transforms, table, front);
        let state = states.last();
        assert(state == states[states.len() - 1]);
        match owner_of(table, state.handle) {
            Some(entity) => {
                if lookup(transforms, entity.id as int).is_some() {
                    assert(transforms.update(
                        entity.id as int,
                        Some(Transform { x: state.x, y: state.y }),
                    ) =~= transforms);
                }
            },
            None => {},
        }
    }
}

/// The stale bodies below `n` are listed once each, by rising handle, and
/// nothing else is listed.
pub proof fn lemma_stale_lists_each_once(
    table: Map<BodyHandle, Entity>,
    transforms: Seq<Option<Transform>>,
    n: int,
)
    requires
        0 <= n <= u64::MAX,
    ensures
        ({
            let gone = stale(table, transforms, n);
            &&& forall|h: BodyHandle|
                gone.contains(h) <==> h.index < n && is_stale(table, transforms, h)
            &&& forall|i: int, j: int|
                0 <= i < j < gone.len() ==> (#[trigger] gone[i]).index < (#[trigger] gone[j]).index
            &&& gone.no_duplicates()
            &&& gone.len() <= n
        }),
    decreases n,
{
    let gone = stale(table, transforms, n);
    if n > 0 {
        lemma_stale_lists_each_once(table, transforms, n - 1);
        let before = stale(table, transforms, n - 1);
        let handle = BodyHandle { index: (n - 1) as u64 };
        if is_stale(table, transforms, handle) {
            assert(gone == before.push(handle));
            assert forall|h: BodyHandle| gone.contains(h) <==> h.index < n && is_stale(
                table,
                transforms,
                h,
            ) by {
                if gone.contains(h) {
                    let k = choose|k: int| 0 <= k < gone.len() && gone[k] == h;
                    if k < before.len() {
                        assert(before[k] == h);
                        assert(before.contains(h));
                    }
                }
                if h.index < n && is_stale(table, transforms, h) {
                    if h.index < n - 1 {
                        assert(before.contains(h));
                        let k = choose|k: int| 0 <= k < before.len() && before[k] == h;
                        assert(gone[k] == h);
                    } else {
                        assert(h == handle);
                        assert(gone[before.len() as int] == h);
                    }
                }
            }
            assert forall|i: int, j: int| 0 <= i < j < gone.len() implies (#[trigger] gone[i]).index
                < (#[trigger] gone[j]).index by {
                if j == before.len() {
                    assert(before[i] == gone[i]);
                    assert(before.contains(gone[i]));
                } else {
                    assert(before[i] == gone[i]);
                    assert(before[j] == gone[j]);
                }
            }
        }
    } else {
        assert forall|h: BodyHandle| gone.contains(h) <==> h.index < n && is_stale(
            table,
            transforms,
            h,
        ) by {}
    }
}

/// Pruning: after the second half of a physics tick, every body that is
/// left belongs to an entity that holds a transform; the bodies returned
/// are exactly those whose entity held none, each once; and the number of
/// bodies has gone down by exactly the number of bodies returned.
pub proof fn lemma_prune(
    world: WorldState,
    physics: PhysicsState,
    states: Seq<BodyState>,
)
    requires
        physics.stepping,
        physics.table.dom().finite(),
        physics.issued <= u64::MAX,
        forall|h: BodyHandle| physics.table.contains_key(h) ==> h.index < physics.issued,
    ensures
        ({
            let outcome = finished(world, physics, states);
            &&& forall|h: BodyHandle| #[trigger]
                outcome.physics.table.contains_key(h) ==> physics.table.contains_key(h)
                    && outcome.physics.table[h] == physics.table[h] && lookup(
                    outcome.world.transforms,
                    physics.table[h].id as int,
                ).is_some()
            &&& forall|h: BodyHandle|
                outcome.gone.contains(h) <==> physics.table.contains_key(h) && lookup(
                    world.transforms,
                    physics.table[h].id as int,
                ).is_none()
            &&& forall|h: BodyHandle|
                outcome.gone.contains(h) ==> !outcome.physics.table.contains_key(h)
            &&& outcome.gone.no_duplicates()
            &&& outcome.physics.table.dom().finite()
            &&& outcome.physics.table.dom().len() == physics.table.dom().len()
                - outcome.gone.len()
        }),
{
    let outcome = finished(world, physics, states);
    let transforms = outcome.world.transforms;
    let gone = outcome.gone;
    lemma_synced_shape(world.transforms, physics.table, states);
    lemma_stale_lists_each_once(physics.table, transforms, physics.issued as int);
    assert forall|h: BodyHandle|
        gone.contains(h) <==> physics.table.contains_key(h) && lookup(
            world.transforms,
            physics.table[h].id as int,
        ).is_none() by {
        if physics.table.contains_key(h) {
            let id = physics.table[h].id as int;
            if 0 <= id < world.transforms.len() {
                assert(transforms[id].is_some() == world.transforms[id].is_some());
            }
        }
    }
    let removed = gone.to_set();
    assert(outcome.physics.table.dom() =~= physics.table.dom().difference(removed)) by {
        assert forall|h: BodyHandle|
            outcome.physics.table.dom().contains(h) <==> physics.table.dom().difference(
                removed,
            ).contains(h) by {
            assert(removed.contains(h) <==> gone.contains(h));
        }
    }
    gone.unique_seq_to_set();
    assert(removed.subset_of(physics.table.dom())) by {
        assert forall|h: BodyHandle| removed.contains(h) implies physics.table.dom().contains(
            h,
        ) by {
            assert(gone.contains(h));
        }
    }
    lemma_difference_len(physics.table.dom(), removed);
}

/// Taking a subset away from a finite set takes its size away.
proof fn lemma_difference_len<A>(whole: Set<A>, part: Set<A>)
    requires
        whole.finite(),
        part.subset_of(whole),
    ensures
        whole.difference(part).finite(),
        whole.difference(part).len() == whole.len() - part.len(),
    decreases whole.len(),
{
    vstd::set_lib::lemma_len_subset(part, whole);
    if part.len() == 0 {
        assert(part =~= Set::empty()) by {
            if !part.is_empty() {
                let a = part.choose();
                assert(part.contains(a));
            }
        }
        assert(whole.difference(part) =~= whole);
    } else {
        let a = part.choose();
        assert(part.contains(a));
        lemma_difference_len(whole.remove(a), part.remove(a));
        assert(whole.difference(part) =~= whole.remove(a).difference(part.remove(a)));
    }
}

/// The physics system reads the elapsed time before the render system
/// takes the request: in a tick that finds a render request waiting, the
/// simulation is stepped by twice the elapsed time of the very request that
/// the frame of this tick is drawn for.
pub proof fn lemma_step_and_frame_share_the_request(
    world: WorldState,
    dispatcher: DispatcherState,
    states: Seq<BodyState>,
)
    requires
        !dispatcher.physics.stepping,
        world.render_events.len() > 0,
    ensures
        ({
            let first = begun(world, dispatcher);
            let middle = DispatcherState { physics: first.physics, ..dispatcher };
            let last = ended(first.world, middle, states);
            &&& first.plan.is_some()
            &&& last.frame.is_some()
            &&& last.frame.unwrap().args == world.render_events[0]
            &&& first.plan.unwrap().dt == world.render_events[0].ext_dt.times(TIME_SCALE as int)
            &&& last.world.render_events == world.render_events.drop_first()
        }),
{
    let first = begun(world, dispatcher);
    let middle = DispatcherState { physics: first.physics, ..dispatcher };
    let done = finished(first.world, first.physics, states);
    let shown = after_render(done.world);
    shown.lemma_apply_all_keeps_events(shown.pending);
}

} // verus!
