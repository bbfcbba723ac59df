//! A two-dimensional gravitational N-body simulation in fixed-point integer
//! arithmetic: pairwise inverse-square attraction, collision detection,
//! impulse-based collision resolution and soft reflecting walls, advanced by
//! a fixed timestep.

pub mod fixed;
pub mod body;
pub mod physics;
pub mod simulation;
