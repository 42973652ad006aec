//! Simulation core of a real-time multiplayer arena game.
//!
//! The crate owns the collision geometry, the spatial movement resolution and
//! the tick-driven combat engine (damage, skills, effects, zone shrink, loot
//! and kill tracking). All world coordinates are integers; directions and
//! multiplicative factors are fixed-point values in thousandths, so every
//! geometric and combat computation here is exact integer arithmetic.
#![verifier::loop_isolation(false)]

pub mod board;
pub mod character;
pub mod collision_detection;
pub mod entity;
pub mod config;
pub mod ear_clipping;
pub mod effect;
pub mod game;
pub mod loot;
pub mod player;
pub mod projectile;
pub mod skill;
pub mod status;
pub mod isqrt;
pub mod map;
pub mod time_utils;

use vstd::prelude::*;

verus! {

} // verus!
