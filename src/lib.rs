//! Tick-driven simulation core of a tower-defense game.
//!
//! Distances are fixed-point integers in thousandths of a world unit, speeds
//! are thousandths of a unit per second, and time is counted in nanoseconds.
use vstd::prelude::*;

pub mod timer;
pub mod geometry;
pub mod components;
pub mod world;
pub mod motion;
pub mod expiry;
pub mod firing;
pub mod laws;
