//! A falling-block puzzle simulation built as a small entity-component world.
//!
//! Blocks are entities that carry components; a fixed pipeline of systems
//! (dropper, spawner, movement, ender, mapper) advances the world once per
//! tick, and blocks created during a tick are added at its end.
//!
//! Time is counted in nanoseconds and positions in subpixels, so that a
//! speed in pixels per second times an elapsed time is an exact distance.
use vstd::prelude::*;

pub mod components;
pub mod laws;
pub mod resources;
pub mod settings;
pub mod systems;
pub mod world;

verus! {

} // verus!
