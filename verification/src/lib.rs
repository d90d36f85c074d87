//! Simulation core of a small arcade shoot-'em-up.
//!
//! A player ship fires lasers upward, enemies spawn in formation and fire
//! lasers downward, collisions destroy entities and award score, and the
//! game tracks player lives until game over, then allows restart.
//!
//! The core is a pure, deterministic state machine over integer world
//! units: positions, sizes and velocities are plain `i64` coordinates and
//! time is an integer tick count, so every rule (movement integration,
//! despawn bounds, collision resolution, counters, game flow) carries an
//! exact contract. Rendering, input polling and timers live outside; the
//! host loop feeds sampled inputs in and reads the world back out.

pub mod collision;
pub mod explosion;
pub mod flow;
pub mod geom;
pub mod movement;
pub mod spawn;
pub mod world;
