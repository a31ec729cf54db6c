use vstd::prelude::*;
use crate::geometry::{Position, Vector};
use crate::timer::Timer;

verus! {

/// Speed of every bullet a tower fires, in thousandths of a unit per second.
pub const BULLET_SPEED: i32 = 2500;

/// How long a fired bullet lives, in nanoseconds.
pub const BULLET_LIFETIME: u64 = 2_500_000_000;

/// Cooldown of a tower mounted on a base, in nanoseconds.
pub const BARREL_COOLDOWN: u64 = 1_000_000_000;

/// Height above a tower's translation at which its bullets appear, in
/// thousandths of a unit.
pub const BARREL_MUZZLE_HEIGHT: i32 = 500;

/// A projectile: it flies along `direction` at `speed`, both fixed at spawn.
#[derive(Clone, Copy, Debug)]
pub struct Bullet {
    pub direction: Vector,
    pub speed: i32,
}

/// An enemy, drifting along the x axis at `speed` (signed).
#[derive(Clone, Copy, Debug)]
pub struct Target {
    pub speed: i32,
}

/// Hit points of an enemy.
#[derive(Clone, Copy, Debug)]
pub struct Health {
    pub value: i32,
}

/// A one-shot countdown after which its entity is removed.
#[derive(Clone, Copy, Debug)]
pub struct Lifetime {
    pub timer: Timer,
}

/// Marks the base of a tower that has no barrel yet.
#[derive(Clone, Copy, Debug)]
pub struct TowerBase {}

/// A firing tower: it shoots whenever its repeating timer completes, from
/// its own translation moved by `bullet_offset`.
#[derive(Clone, Copy, Debug)]
pub struct Tower {
    pub shooting_timer: Timer,
    pub bullet_offset: Position,
}

} // verus!
