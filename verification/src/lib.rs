//! A fixed-timestep, sub-stepped rigid-body position solver (XPBD) in two
//! dimensions, over fixed-point integer arithmetic.
use vstd::prelude::*;

pub mod broad;
pub mod components;
pub mod contact;
pub mod integrate;
pub mod math;
pub mod plugin;
pub mod resources;
pub mod solve_pos;
pub mod solve_vel;
pub mod world;

pub use contact::Contact;
pub use components::{
    Aabb, BoxCollider, CircleCollider, Mass, Pos, PreSolveVel, PrevPos, Restitution, Vec2, Vel,
};
pub use plugin::XPBDPlugin;
pub use resources::{CollisionPairs, Contacts, Gravity, LoopState, StaticContacts};
pub use world::{
    Body, DynamicBoxBundle, ParticleBundle, Shape, StaticBoxBundle, StaticCircleBundle, World,
};

verus! {

/// Fixed-point scale: one world unit is `SCALE` raw units.
pub const SCALE: i64 = 1_000_000;

/// Sub-steps per outer frame.
pub const NUM_SUBSTEPS: u32 = 10;

/// Sub-steps per second: sixty frames per second, each of
/// `NUM_SUBSTEPS` sub-steps, so one sub-step lasts 1/600 s.
pub const SUBSTEPS_PER_SECOND: i64 = 600;

/// The broad-phase safety margin is the body's speed divided by this:
/// twice the outer frame duration, `2 / 60` of the speed per second.
pub const MARGIN_DIVISOR: i64 = 30;

/// Largest accepted collider extent (radius or side), in raw units.
pub const EXTENT_LIMIT: i64 = 1_000_000_000_000;

/// Largest accepted mass, in raw units.
pub const MASS_LIMIT: i64 = 1_000_000_000_000;

} // verus!
