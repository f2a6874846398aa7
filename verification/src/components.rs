//! The component kinds that an entity can carry.

use vstd::prelude::*;
use crate::fixed::Fixed;

verus! {

/// Where an entity is, in world units.
#[derive(Clone, Copy, Debug, PartialEq, Eq, Structural)]
pub struct Transform {
    pub x: Fixed,
    pub y: Fixed,
}

/// A colour with one byte per channel.
#[derive(Clone, Copy, Debug, PartialEq, Eq, Structural)]
pub struct Colour {
    pub red: u8,
    pub green: u8,
    pub blue: u8,
    pub alpha: u8,
}

/// A filled rectangle to draw at the entity's position.
#[derive(Clone, Copy, Debug, PartialEq, Eq, Structural)]
pub struct RenderRect {
    pub width: Fixed,
    pub height: Fixed,
    pub colour: Colour,
}

/// A handle to a shared atlas texture. The texture itself is owned by whoever
/// draws; tiles only name it, so it is never copied per tile.
#[derive(Clone, Copy, Debug, PartialEq, Eq, Structural)]
pub struct AtlasId {
    pub index: u32,
}

/// A sub-rectangle of an atlas, in atlas pixels, to draw at the entity's
/// position.
#[derive(Clone, Copy, Debug, PartialEq, Eq, Structural)]
pub struct Tile {
    pub x: u64,
    pub y: u64,
    pub width: u64,
    pub height: u64,
    pub atlas: AtlasId,
}

/// Marks the entity that the keyboard controls.
#[derive(Clone, Copy, Debug, PartialEq, Eq, Structural)]
pub struct Player;

/// Describes a rigid body that is still to be put into the simulation: an
/// axis-aligned box given by its half extents, with its material constants.
/// A body without density is static.
#[derive(Clone, Copy, Debug, PartialEq, Eq)]
pub struct RigidBodyDescriptor {
    pub half_width: Fixed,
    pub half_height: Fixed,
    pub density: Option<Fixed>,
    pub restitution: Fixed,
    pub friction: Fixed,
}

/// The kinds of component, for commands that name one.
#[derive(Clone, Copy, Debug, PartialEq, Eq, Structural)]
pub enum ComponentKind {
    Transform,
    RenderRect,
    Tile,
    Player,
    RigidBody,
}

} // verus!
