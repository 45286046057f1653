//! Simulation core of a small factory game: a world of positioned, movable
//! objects (items, obstacles, machines) driven each tick by a rigid-body
//! physics pass, a production/economy pass, and a pointer-driven interaction
//! state machine.
//!
//! All geometry and time are modelled over the integers: positions and
//! velocities are `i64` world units (clipped to a fixed world bound), and
//! time is `u64` microseconds.
//!
//! The systems run sequentially within one tick, and that order is the
//! concurrency contract: the pointer systems resolve first (cursor, click,
//! hit-test, drag), then physics (gravity, circle and rectangle collision
//! resolution, integration, the position-change report), then the economy
//! (pipe toggling and spawning, collection, drawing, cleanup, crafting,
//! duplication, followers, purchases, tool selection), and the level
//! controller last. Exactly one writer moves a dynamic entity's position
//! within a tick: the drag system while a drag is active, physics
//! otherwise.

use vstd::prelude::*;

pub mod draw;
pub mod input;
pub mod item;
pub mod laws;
pub mod levels;
pub mod machines;
pub mod physics;
pub mod pipes;
mod rng;
pub mod ui;
pub mod vec2;
pub mod view;
pub mod world;

verus! {

/// Microseconds per second: the resolution of the simulation clock.
pub const TIME_SCALE: u64 = 1_000_000;

/// Every stored coordinate and velocity component is clipped to
/// `[-WORLD_LIMIT, WORLD_LIMIT]`. The playable area is orders of magnitude
/// smaller, so the clip never fires during play; it only keeps every tick
/// total.
pub const WORLD_LIMIT: i64 = 1_000_000_000;

/// Largest circle radius and rectangle side admitted by the world invariant.
pub const SHAPE_LIMIT: i64 = 1_000_000;

/// Largest spawn rate (items per second) admitted by the world invariant.
pub const RATE_LIMIT: u32 = 1_000_000;

/// Largest pipe cost, pipe reward and machine cost admitted by the world
/// invariant.
pub const COST_LIMIT: i64 = 1_000_000;

/// Downward acceleration, world units per second per second.
pub const GRAVITY_ACCELERATION: i64 = 784;

} // verus!
