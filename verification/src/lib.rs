//! A verified flocking ("boids") simulation.
//!
//! Agents steer under three local rules — alignment, cohesion and
//! separation — and a world advances them all in a two-phase tick:
//! every steering force is computed against the unmodified flock, and
//! only then are the forces applied.  All coordinates are fixed-point
//! integers: one world unit is `vec2::SCALE` coordinate steps.

pub mod boid;
pub mod laws;
mod rng;
pub mod vec2;
pub mod world;

pub use boid::Boid;
pub use vec2::Vec2;
pub use world::World;
