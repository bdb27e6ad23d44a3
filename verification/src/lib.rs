//! A verified core for a 2D game-engine runtime: entities with heterogeneous
//! component stores, a world map of live entities keyed by unique ids, an
//! axis-separated collision pass over integer coordinates, and the per-frame
//! decision logic of the bridge to an embedded scripting virtual machine.
//!
//! All coordinates, velocities and durations are integers: positions and
//! extents are fixed-point world units, durations are microseconds. The
//! unverified host around this crate converts at its edges.

pub mod components;
pub mod gameobject;
pub mod input;
pub mod math;
pub mod scripting;
pub mod time;
pub mod world;
