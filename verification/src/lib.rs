//! A verified entity-component core for a 2D tile game.
//!
//! The crate holds the per-tick logic of the game: component storage and the
//! entity registry, the event queues, the input, physics and render systems,
//! and the mapping from tile indices to atlas rectangles. Windowing, drawing,
//! asset files and the rigid-body simulation itself live with the caller: the
//! systems take events and body states as plain values and hand back draw
//! commands and simulation requests.
//!
//! All scalar quantities are fixed-point numbers (see [`fixed::Fixed`]).

pub mod fixed;
pub mod storage;
pub mod components;
pub mod events;
pub mod world;
pub mod tiles;
pub mod bodies;
pub mod physics;
pub mod input;
pub mod render;
pub mod dispatcher;
pub mod player;
pub mod view;
pub mod laws;
