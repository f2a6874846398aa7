//! The input system: one key press per tick becomes movement of the player.
//!
//! The system takes the oldest key press from its queue, and no more than
//! that one. A press of a direction key moves every entity that is marked as
//! the player: in [`InputMode::Step`] by a fixed step, at once, and in
//! [`InputMode::Force`] by a unit force that is recorded for the physics
//! system. Any other key is taken from the queue and does nothing.

use vstd::prelude::*;
use crate::components::{Player, Transform};
use crate::events::{Force, ForceEvents, Key, KeyPressEvents};
use crate::fixed::Fixed;
use crate::storage::{lookup, Storage};
use crate::world::{total, WorldState};

verus! {

/// The length of one step of the player, in world units.
pub const STEP: i64 = 64;

/// How a direction key moves the player.
#[derive(Clone, Copy, Debug, PartialEq, Eq, Structural)]
pub enum InputMode {
    /// The player's transform changes by one step.
    Step,
    /// A unit force is recorded against the player.
    Force,
}

/// The direction of a key as a pair of signs, for the keys that have one.
/// The y axis points down.
pub open spec fn spec_direction(key: Key) -> Option<(int, int)> {
    match key {
        Key::Left => Some((-1, 0)),
        Key::Right => Some((1, 0)),
        Key::Up => Some((0, -1)),
        Key::Down => Some((0, 1)),
        Key::Other => None,
    }
}

/// The direction of a key, for the keys that have one.
pub fn direction(key: Key) -> (d: Option<(i64, i64)>)
    ensures
        match d {
            Some((dx, dy)) => spec_direction(key) == Some((dx as int, dy as int)),
            None => spec_direction(key).is_none(),
        },
{
    match key {
        Key::Left => Some((-1, 0)),
        Key::Right => Some((1, 0)),
        Key::Up => Some((0, -1)),
        Key::Down => Some((0, 1)),
        Key::Other => None,
    }
}

/// A transform moved by one step in direction `(dx, dy)`.
pub open spec fn stepped(transform: Transform, dx: int, dy: int) -> Transform {
    Transform {
        x: transform.x.plus(Fixed::units(dx * STEP)),
        y: transform.y.plus(Fixed::units(dy * STEP)),
    }
}

/// The unit force in direction `(dx, dy)`.
pub open spec fn unit_force(dx: int, dy: int) -> Force {
    Force { x: Fixed::units(dx), y: Fixed::units(dy) }
}

/// The transforms after every player has made one step.
pub open spec fn step_players(
    transforms: Seq<Option<Transform>>,
    players: Seq<Option<Player>>,
    dx: int,
    dy: int,
) -> Seq<Option<Transform>> {
    Seq::new(
        transforms.len(),
        |i: int|
            if lookup(players, i).is_some() && transforms[i].is_some() {
                Some(stepped(transforms[i].unwrap(), dx, dy))
            } else {
                transforms[i]
            },
    )
}

/// The force table after `force` has been recorded against every player.
pub open spec fn push_players(
    forces: Map<u32, Seq<Force>>,
    players: Seq<Option<Player>>,
    force: Force,
) -> Map<u32, Seq<Force>> {
    Map::new(
        |id: u32| true,
        |id: u32|
            if lookup(players, id as int).is_some() {
                forces[id].push(force)
            } else {
                forces[id]
            },
    )
}

/// What one run of the input system leaves behind.
pub ghost struct InputOutcome {
    pub key_presses: Seq<Key>,
    pub forces: Map<u32, Seq<Force>>,
    pub transforms: Seq<Option<Transform>>,
}

/// The outcome of one run of the input system.
pub open spec fn input_outcome(
    mode: InputMode,
    key_presses: Seq<Key>,
    forces: Map<u32, Seq<Force>>,
    players: Seq<Option<Player>>,
    transforms: Seq<Option<Transform>>,
) -> InputOutcome {
    if key_presses.len() == 0 {
        InputOutcome { key_presses, forces, transforms }
    } else {
        let rest = key_presses.drop_first();
        match spec_direction(key_presses[0]) {
            None => InputOutcome { key_presses: rest, forces, transforms },
            Some((dx, dy)) => match mode {
                InputMode::Step => InputOutcome {
                    key_presses: rest,
                    forces,
                    transforms: step_players(transforms, players, dx, dy),
                },
                InputMode::Force => InputOutcome {
                    key_presses: rest,
                    forces: push_players(forces, players, unit_force(dx, dy)),
                    transforms,
                },
            },
        }
    }
}

/// The world after one run of the input system.
pub open spec fn after_input(state: WorldState, mode: InputMode) -> WorldState {
    let outcome = input_outcome(
        mode,
        state.key_presses,
        state.forces,
        state.players,
        state.transforms,
    );
    WorldState {
        key_presses: outcome.key_presses,
        forces: outcome.forces,
        transforms: outcome.transforms,
        ..state
    }
}

/// The input system.
#[derive(Clone, Copy, Debug, PartialEq, Eq, Structural)]
pub struct InputSys {
    pub mode: InputMode,
}

impl InputSys {
    /// An input system that moves the player in the given way.
    pub fn new(mode: InputMode) -> (system: InputSys)
        ensures
            system.mode == mode,
    {
        InputSys { mode }
    }

    /// Takes the oldest key press, if there is one, and moves the players
    /// by it.
    pub fn run(
        &self,
        key_presses: &mut KeyPressEvents,
        forces: &mut ForceEvents,
        players: &Storage<Player>,
        transforms: &mut Storage<Transform>,
    )
        requires
            players@.len() <= u32::MAX,
            old(transforms)@.len() <= u32::MAX,
        ensures
            ({
                let outcome = input_outcome(
                    self.mode,
                    old(key_presses)@,
                    old(forces)@,
                    players@,
                    old(transforms)@,
                );
                &&& final(key_presses)@ == outcome.key_presses
                &&& final(forces)@ == outcome.forces
                &&& final(transforms)@ == outcome.transforms
            }),
            final(transforms)@.len() == old(transforms)@.len(),
    {
        proof {
            forces.lemma_total();
        }
        let key: Key = match key_presses.pop() {
            Some(key) => key,
            None => {
                return ;
            },
        };
        let (dx, dy): (i64, i64) = match direction(key) {
            Some(d) => d,
            None => {
                return ;
            },
        };
        match self.mode {
            InputMode::Step => {
                let step_x: Fixed = Fixed::from_units(dx * STEP);
                let step_y: Fixed = Fixed::from_units(dy * STEP);
                let n: usize = transforms.len();
                let mut i: usize = 0;
                while i < n
                    invariant
                        i <= n,
                        n == old(transforms)@.len(),
                        n <= u32::MAX,
                        step_x == Fixed::units(dx * STEP),
                        step_y == Fixed::units(dy * STEP),
                        transforms@.len() == n,
                        forall|j: int|
                            0 <= j < n ==> #[trigger] transforms@[j] == (if j < i {
                                step_players(old(transforms)@, players@, dx as int, dy as int)[j]
                            } else {
                                old(transforms)@[j]
                            }),
                    decreases n - i,
                {
                    if players.contains(i as u32) {
                        match transforms.get(i as u32) {
                            Some(transform) => {
                                transforms.insert(
                                    i as u32,
                                    Transform {
                                        x: transform.x.saturating_add(step_x),
                                        y: transform.y.saturating_add(step_y),
                                    },
                                );
                            },
                            None => {},
                        }
                    }
                    i += 1;
                }
                assert(transforms@ =~= step_players(
                    old(transforms)@,
                    players@,
                    dx as int,
                    dy as int,
                ));
            },
            InputMode::Force => {
                let force = Force { x: Fixed::from_units(dx), y: Fixed::from_units(dy) };
                let n: usize = players.len();
                let mut i: usize = 0;
                while i < n
                    invariant
                        i <= n,
                        n == players@.len(),
                        n <= u32::MAX,
                        total(old(forces)@),
                        forces@ == Map::new(
                            |id: u32| true,
                            |id: u32|
                                if id < i && lookup(players@, id as int).is_some() {
                                    old(forces)@[id].push(force)
                                } else {
                                    old(forces)@[id]
                                },
                        ),
                    decreases n - i,
                {
                    let ghost before = forces@;
                    if players.contains(i as u32) {
                        forces.push(i as u32, force);
                    }
                    i += 1;
                    assert(forces@ =~= Map::new(
                        |id: u32| true,
                        |id: u32|
                            if id < i && lookup(players@, id as int).is_some() {
                                old(forces)@[id].push(force)
                            } else {
                                old(forces)@[id]
                            },
                    ));
                }
                assert(forces@ =~= push_players(old(forces)@, players@, force));
            },
        }
    }
}

} // verus!
