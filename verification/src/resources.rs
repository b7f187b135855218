//! Frame-level solver state: candidate pairs, contact records and tuning.
use crate::components::{Vec2, Vec2V};
use vstd::prelude::*;

verus! {

/// Candidate dynamic-dynamic pairs collected by the broad phase, each
/// `(a, b)` with `a > b` strictly.
#[derive(Debug)]
pub struct CollisionPairs(pub Vec<(usize, usize)>);

/// Dynamic-dynamic contact records of the current sub-step:
/// `(a, b, normal)`, rebuilt freshly by every position solve.
#[derive(Debug)]
pub struct Contacts(pub Vec<(usize, usize, Vec2)>);

/// Dynamic-static contact records of the current sub-step.
#[derive(Debug)]
pub struct StaticContacts(pub Vec<(usize, usize, Vec2)>);

/// Gravitational acceleration, in raw units per second squared.
#[derive(Clone, Copy, Debug)]
pub struct Gravity(pub Vec2);

impl Default for Gravity {
    /// Standard gravity, pointing down.
    fn default() -> (r: Self)
        ensures
            r.0@ == (Vec2V { x: 0, y: -9_810_000 }),
    {
        Gravity(Vec2 { x: 0, y: -9_810_000 })
    }
}

impl Default for CollisionPairs {
    fn default() -> (r: Self)
        ensures
            r.0@ == Seq::<(usize, usize)>::empty(),
    {
        CollisionPairs(Vec::new())
    }
}

impl Default for Contacts {
    fn default() -> (r: Self)
        ensures
            r.0@ == Seq::<(usize, usize, Vec2)>::empty(),
    {
        Contacts(Vec::new())
    }
}

impl Default for StaticContacts {
    fn default() -> (r: Self)
        ensures
            r.0@ == Seq::<(usize, usize, Vec2)>::empty(),
    {
        StaticContacts(Vec::new())
    }
}

/// Book-keeping for a host that drives frames from a variable-rate loop.
/// The solver itself runs whole frames; this record only carries what the
/// host has accumulated toward the next one, in raw time units.
#[derive(Clone, Copy, Debug)]
pub struct LoopState {
    pub has_added_time: bool,
    pub accumulator: i64,
    pub current_substep: u32,
    pub substepping: bool,
}

impl Default for LoopState {
    fn default() -> (r: Self)
        ensures
            r.has_added_time == false,
            r.accumulator == 0,
            r.current_substep == 0,
            r.substepping == false,
    {
        LoopState { has_added_time: false, accumulator: 0, current_substep: 0, substepping: false }
    }
}

} // verus!
