//! What moves: velocities, and the way a player turns and walks.

use vstd::prelude::*;
use crate::camera::{Pos3D, HEADING_LIMIT};
use crate::fixed::{clamp_i64, clamped, mul_div, UNIT};
use crate::geom::{Vec2f, Vec3f};

verus! {

/// How far something moves in one tick.
#[derive(Clone, Copy, Debug, PartialEq, Eq, Structural)]
pub struct Vel3D(pub Vec3f);

/// The pass that moves everything by its velocity.
#[derive(Clone, Copy, Debug)]
pub struct ApplyVelocity;

/// The pass that turns and walks a player.
#[derive(Clone, Copy, Debug)]
pub struct MovePlayer;

/// How fast a player walks, in world units a second.
pub const WALK_SPEED: i64 = 3;

/// Which way a player turns.
#[derive(Clone, Copy, Debug, PartialEq, Eq, Structural)]
pub enum Turning {
    Left,
    Right,
    Straight,
}

impl Vel3D {
    /// No movement.
    pub fn new() -> (vel: Self)
        ensures
            vel == Vel3D(Vec3f { x: 0, y: 0, z: 0 }),
    {
        Vel3D(Vec3f { x: 0, y: 0, z: 0 })
    }
}

impl Turning {
    /// By how many steps the yaw grows in a tick: one step for a turn to
    /// the left, one step less for a turn to the right.
    pub open spec fn spec_steps(self) -> i8 {
        match self {
            Turning::Left => 1,
            Turning::Right => -1i8,
            Turning::Straight => 0,
        }
    }

    /// By how many steps the yaw grows in a tick.
    pub fn steps(self) -> (n: i8)
        ensures
            n == self.spec_steps(),
    {
        match self {
            Turning::Left => 1,
            Turning::Right => -1,
            Turning::Straight => 0,
        }
    }
}

/// How far a player moves in a tick of `dt` seconds, in fixed point: along
/// `heading` at walking speed if the player walks, each component rounded
/// down and held to the range of `i64`, and not at all otherwise.
pub open spec fn spec_stride(heading: Vec2f, walking: bool, dt: i64) -> Vec3f {
    if walking {
        Vec3f {
            x: clamp_i64((heading.x * WALK_SPEED * dt) / (UNIT as int)),
            y: clamp_i64((heading.y * WALK_SPEED * dt) / (UNIT as int)),
            z: 0,
        }
    } else {
        Vec3f { x: 0, y: 0, z: 0 }
    }
}

impl MovePlayer {
    /// Turns a player to face `heading` and sets the velocity at which it
    /// moves through a tick of `dt` seconds. Where the player is stays.
    pub fn run(
        &mut self,
        pos: &mut Pos3D,
        vel: &mut Vel3D,
        heading: Vec2f,
        walking: bool,
        dt: i64,
    )
        requires
            heading.within(HEADING_LIMIT as int),
        ensures
            final(pos).0 == old(pos).0,
            final(pos).1 == heading,
            final(vel).0 == spec_stride(heading, walking, dt),
    {
        pos.1 = heading;
        if walking {
            let x: i128 = mul_div(heading.x * WALK_SPEED, dt, UNIT);
            let y: i128 = mul_div(heading.y * WALK_SPEED, dt, UNIT);
            vel.0 = Vec3f { x: clamped(x), y: clamped(y), z: 0 };
        } else {
            vel.0 = Vec3f { x: 0, y: 0, z: 0 };
        }
    }
}

impl ApplyVelocity {
    /// Moves `pos` by `vel`, each coordinate held to the range of `i64`. The
    /// way it faces stays.
    pub fn run(&mut self, pos: &mut Pos3D, vel: &Vel3D)
        ensures
            final(pos).0 == old(pos).0.spec_plus(vel.0),
            final(pos).1 == old(pos).1,
    {
        pos.0 = pos.0.plus(vel.0);
    }
}

} // verus!
