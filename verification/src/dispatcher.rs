//! The dispatcher: the fixed pipeline of one tick.
//!
//! A tick runs the input system, the physics system and the render system,
//! in this order, and then applies the deferred structural changes. The
//! simulation itself runs outside this crate, between the two halves of
//! the physics system, so a tick is made of two calls:
//!
//! 1. [`Dispatcher::begin_tick`] runs the input system and the first half
//!    of the physics system, and returns what the simulation is to do;
//! 2. the caller has the simulation do it;
//! 3. [`Dispatcher::end_tick`] takes the positions of the bodies, runs the
//!    second half of the physics system and the render system, flushes the
//!    command buffer, and returns the bodies to remove and the frame to
//!    draw.
//!
//! The physics system reads the elapsed time from the oldest render
//! request before the render system takes that request from its queue.

use vstd::prelude::*;
use crate::bodies::BodyHandle;
use crate::input::{after_input, InputMode, InputSys};
use crate::physics::{
    finished,
    prepared,
    BodyState,
    PhysicsState,
    PhysicsSys,
    StepPlan,
    StepRequest,
};
use crate::render::{after_render, frame_of, Frame, FramePlan, RenderSys, TILE_PIXELS};
use crate::world::{World, WorldState};

verus! {

/// What a dispatcher knows between calls.
pub ghost struct DispatcherState {
    /// How the input system moves the player.
    pub mode: InputMode,
    /// The number of pixels that the render system takes for a world unit.
    pub pixels_per_unit: i64,
    /// The state of the physics system.
    pub physics: PhysicsState,
}

/// The outcome of the first call of a tick.
pub ghost struct Begun {
    pub world: WorldState,
    pub physics: PhysicsState,
    pub plan: Option<StepPlan>,
}

/// The first call of a tick, on plain values: the input system, then the
/// first half of the physics system. While the outcome of a step is
/// awaited, nothing happens.
pub open spec fn begun(world: WorldState, dispatcher: DispatcherState) -> Begun {
    if dispatcher.physics.stepping {
        Begun { world, physics: dispatcher.physics, plan: None }
    } else {
        let outcome = prepared(after_input(world, dispatcher.mode), dispatcher.physics);
        Begun { world: outcome.world, physics: outcome.physics, plan: outcome.plan }
    }
}

/// The outcome of the second call of a tick.
pub ghost struct Ended {
    pub world: WorldState,
    pub physics: PhysicsState,
    pub gone: Seq<BodyHandle>,
    pub frame: Option<FramePlan>,
}

/// The second call of a tick, on plain values: the second half of the
/// physics system, then the render system, then the flush of the command
/// buffer.
pub open spec fn ended(
    world: WorldState,
    dispatcher: DispatcherState,
    states: Seq<BodyState>,
) -> Ended {
    let outcome = finished(world, dispatcher.physics, states);
    Ended {
        world: after_render(outcome.world).flushed(),
        physics: outcome.physics,
        gone: outcome.gone,
        frame: frame_of(outcome.world, dispatcher.pixels_per_unit),
    }
}

/// What the second call of a tick hands to the caller.
#[derive(Debug, PartialEq, Eq)]
pub struct TickOutput {
    /// The bodies to remove from the simulation.
    pub gone: Vec<BodyHandle>,
    /// The frame to draw, if a render request waited.
    pub frame: Option<Frame>,
}

/// The systems of a tick, in the order in which they run.
pub struct Dispatcher {
    input: InputSys,
    physics: PhysicsSys,
    render: RenderSys,
}

impl View for Dispatcher {
    type V = DispatcherState;

    closed spec fn view(&self) -> DispatcherState {
        DispatcherState {
            mode: self.input.mode,
            pixels_per_unit: self.render.pixels_per_unit,
            physics: self.physics@,
        }
    }
}

impl Dispatcher {
    /// The systems are consistent.
    pub closed spec fn wf(&self) -> bool {
        self.physics.wf()
    }

    /// A dispatcher with the given input and render systems and a physics
    /// system without bodies.
    pub fn new(input: InputSys, render: RenderSys) -> (dispatcher: Dispatcher)
        ensures
            dispatcher.wf(),
            dispatcher@ == (DispatcherState {
                mode: input.mode,
                pixels_per_unit: render.pixels_per_unit,
                physics: PhysicsState { table: Map::empty(), issued: 0, stepping: false },
            }),
    {
        Dispatcher { input, physics: PhysicsSys::new(), render }
    }

    /// The physics system, to look up bodies.
    pub fn physics(&self) -> (physics: &PhysicsSys)
        ensures
            physics@ == self@.physics,
            self.wf() ==> physics.wf(),
    {
        &self.physics
    }

    /// The first call of a tick: runs the input system and the first half
    /// of the physics system. Returns what the simulation is to do before
    /// [`Dispatcher::end_tick`] is called, or `None` where it has nothing
    /// to do.
    pub fn begin_tick(&mut self, world: &mut World) -> (request: Option<StepRequest>)
        requires
            old(self).wf(),
            old(world)@.wf(),
        ensures
            final(self).wf(),
            final(world)@.wf(),
            final(world)@ == begun(old(world)@, old(self)@).world,
            final(self)@ == (DispatcherState {
                physics: begun(old(world)@, old(self)@).physics,
                ..old(self)@
            }),
            match request {
                Some(request) => begun(old(world)@, old(self)@).plan == Some(request@),
                None => begun(old(world)@, old(self)@).plan.is_none(),
            },
    {
        if self.physics.is_stepping() {
            return None;
        }
        world.run_input(&self.input);
        world.prepare_physics(&mut self.physics)
    }

    /// The second call of a tick: takes the positions that the simulation
    /// reports, runs the second half of the physics system and the render
    /// system, and applies the deferred commands.
    pub fn end_tick(&mut self, world: &mut World, states: &Vec<BodyState>) -> (output: TickOutput)
        requires
            old(self).wf(),
            old(world)@.wf(),
        ensures
            final(self).wf(),
            final(world)@.wf(),
            final(world)@ == ended(old(world)@, old(self)@, states@).world,
            final(self)@ == (DispatcherState {
                physics: ended(old(world)@, old(self)@, states@).physics,
                ..old(self)@
            }),
            output.gone@ == ended(old(world)@, old(self)@, states@).gone,
            match output.frame {
                Some(frame) => ended(old(world)@, old(self)@, states@).frame == Some(frame@),
                None => ended(old(world)@, old(self)@, states@).frame.is_none(),
            },
    {
        let gone: Vec<BodyHandle> = world.finish_physics(&mut self.physics, states);
        let frame: Option<Frame> = world.run_render(&self.render);
        world.flush();
        TickOutput { gone, frame }
    }
}

/// The dispatcher of the game: direction keys push the player with a unit
/// force, and transforms count tiles.
pub fn create_dispatcher() -> (dispatcher: Dispatcher)
    ensures
        dispatcher.wf(),
        dispatcher@ == (DispatcherState {
            mode: InputMode::Force,
            pixels_per_unit: TILE_PIXELS,
            physics: PhysicsState { table: Map::empty(), issued: 0, stepping: false },
        }),
{
    Dispatcher::new(InputSys::new(InputMode::Force), RenderSys::new(TILE_PIXELS))
}

} // verus!
