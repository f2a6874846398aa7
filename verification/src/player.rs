//! The player entity.

use vstd::prelude::*;
use crate::components::{Colour, Player, RenderRect, RigidBodyDescriptor, Transform};
use crate::fixed::Fixed;
use crate::storage::Entity;
use crate::world::{Component, EntityBuilder, World};

verus! {

/// What the player starts with: a place at `(15, 8)`, a red square of 64
/// units, the player mark, and a box of one unit with density 1,
/// restitution 0.3 and friction 0.6.
pub open spec fn spec_player_builder() -> EntityBuilder {
    EntityBuilder {
        transform: Some(Transform { x: Fixed::units(15), y: Fixed::units(8) }),
        rect: Some(
            RenderRect {
                width: Fixed::units(64),
                height: Fixed::units(64),
                colour: Colour { red: 255, green: 0, blue: 0, alpha: 255 },
            },
        ),
        tile: None,
        player: Some(Player),
        body: Some(
            RigidBodyDescriptor {
                half_width: Fixed { micros: 500_000 },
                half_height: Fixed { micros: 500_000 },
                density: Some(Fixed { micros: 1_000_000 }),
                restitution: Fixed { micros: 300_000 },
                friction: Fixed { micros: 600_000 },
            },
        ),
    }
}

/// What the player starts with.
pub fn player_builder() -> (builder: EntityBuilder)
    ensures
        builder == spec_player_builder(),
{
    EntityBuilder::new().with(
        Component::Transform(Transform { x: Fixed::from_units(15), y: Fixed::from_units(8) }),
    ).with(
        Component::RenderRect(
            RenderRect {
                width: Fixed::from_units(64),
                height: Fixed::from_units(64),
                colour: Colour { red: 255, green: 0, blue: 0, alpha: 255 },
            },
        ),
    ).with(Component::Player(Player)).with(
        Component::RigidBody(
            RigidBodyDescriptor {
                half_width: Fixed { micros: 500_000 },
                half_height: Fixed { micros: 500_000 },
                density: Some(Fixed { micros: 1_000_000 }),
                restitution: Fixed { micros: 300_000 },
                friction: Fixed { micros: 600_000 },
            },
        ),
    )
}

/// Creates the player entity. Returns `None`, and changes nothing, when
/// the registry is full.
pub fn create_player(world: &mut World) -> (created: Option<Entity>)
    requires
        old(world)@.wf(),
    ensures
        final(world)@.wf(),
        old(world)@.slots() == old(world)@.limit ==> created.is_none() && final(world)@ == old(
            world,
        )@,
        old(world)@.slots() < old(world)@.limit ==> created == Some(
            Entity { id: old(world)@.slots() as u32 },
        ) && final(world)@ == old(world)@.spawn(spec_player_builder()),
{
    world.create_entity(player_builder())
}

} // verus!
