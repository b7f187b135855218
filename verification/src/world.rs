//! Bodies, the world that owns them, and the bundles that spawn them.
//!
//! A body's identity is its index in the world's dense body array; indices
//! are handed out in spawn order and never reused, which makes them usable
//! as the strictly ordered tie-break the broad phase needs.
use crate::components::{
    Aabb, AabbV, BoxCollider, CircleCollider, Mass, Pos, PreSolveVel, PrevPos, Restitution, Vec2,
    Vec2V, Vel,
};
use crate::math::div_t;
use crate::resources::{CollisionPairs, Contacts, Gravity, StaticContacts};
use vstd::prelude::*;

verus! {

/// A body's collider: a circle or an axis-aligned box.
#[derive(Clone, Copy, Debug)]
pub enum Shape {
    Circle(CircleCollider),
    Rect(BoxCollider),
}

/// Ghost mirror of [`Shape`].
pub ghost enum ShapeV {
    Circle { radius: int },
    Rect { size: Vec2V },
}

impl View for Shape {
    type V = ShapeV;

    open spec fn view(&self) -> ShapeV {
        match *self {
            Shape::Circle(c) => ShapeV::Circle { radius: c.radius as int },
            Shape::Rect(b) => ShapeV::Rect { size: b.size@ },
        }
    }
}

/// One simulated body. A body with `mass == None` is static: the solver
/// never moves it and it contributes zero inverse mass.
#[derive(Clone, Copy, Debug)]
pub struct Body {
    pub pos: Pos,
    pub prev_pos: PrevPos,
    pub vel: Vel,
    pub pre_solve_vel: PreSolveVel,
    pub mass: Option<Mass>,
    pub restitution: Restitution,
    pub shape: Shape,
    pub bounds: Aabb,
}

/// Ghost mirror of [`Body`].
pub ghost struct BodyV {
    pub pos: Vec2V,
    pub prev_pos: Vec2V,
    pub vel: Vec2V,
    pub pre_solve_vel: Vec2V,
    pub mass: Option<int>,
    pub restitution: int,
    pub shape: ShapeV,
    pub bounds: AabbV,
}

impl View for Body {
    type V = BodyV;

    open spec fn view(&self) -> BodyV {
        BodyV {
            pos: self.pos.0@,
            prev_pos: self.prev_pos.0@,
            vel: self.vel.0@,
            pre_solve_vel: self.pre_solve_vel.0@,
            mass: match self.mass {
                Some(m) => Some(m.0 as int),
                None => None,
            },
            restitution: self.restitution.0 as int,
            shape: self.shape@,
            bounds: self.bounds@,
        }
    }
}

impl BodyV {
    /// A body with a mass is dynamic; one without is static.
    pub open spec fn is_dynamic(self) -> bool {
        self.mass is Some
    }

    /// The mass of a dynamic body.
    pub open spec fn mass_val(self) -> int {
        self.mass->0
    }
}

/// The ghost image of a body sequence.
pub open spec fn views(bs: Seq<Body>) -> Seq<BodyV> {
    bs.map_values(|b: Body| b@)
}

/// A non-degenerate shape within the solver's extent bound.
pub open spec fn shape_wf(s: ShapeV) -> bool {
    match s {
        ShapeV::Circle { radius } => 0 < radius <= crate::EXTENT_LIMIT,
        ShapeV::Rect { size } => 0 < size.x <= crate::EXTENT_LIMIT && 0 < size.y
            <= crate::EXTENT_LIMIT,
    }
}

/// A well-formed body: non-degenerate shape, positive bounded mass when
/// dynamic, restitution within `[0, crate::SCALE]`.
pub open spec fn body_wf(b: BodyV) -> bool {
    &&& shape_wf(b.shape)
    &&& (b.mass is Some ==> 1 <= b.mass->0 <= crate::MASS_LIMIT)
    &&& 0 <= b.restitution <= crate::SCALE
}

/// All bodies of a world are well formed.
pub open spec fn world_wf(bs: Seq<BodyV>) -> bool {
    forall|i: int| 0 <= i < bs.len() ==> body_wf(#[trigger] bs[i])
}

/// The solver only rewrites kinematic state: mass, shape and restitution
/// never change within a frame.
pub open spec fn same_constitution(a: BodyV, b: BodyV) -> bool {
    a.mass == b.mass && a.shape == b.shape && a.restitution == b.restitution
}

/// The simulated world: the dense body array and the frame-level solver
/// state, owned together so one `step` call advances a whole frame.
#[derive(Debug)]
pub struct World {
    pub bodies: Vec<Body>,
    pub gravity: Gravity,
    pub collision_pairs: CollisionPairs,
    pub contacts: Contacts,
    pub static_contacts: StaticContacts,
}

impl World {
    /// An empty world under default gravity.
    pub fn new() -> (r: World)
        ensures
            views(r.bodies@) == Seq::<BodyV>::empty(),
            r.gravity.0@ == (Vec2V { x: 0, y: -9_810_000 }),
            r.collision_pairs.0@.len() == 0,
            r.contacts.0@.len() == 0,
            r.static_contacts.0@.len() == 0,
    {
        let w = World {
            bodies: Vec::new(),
            gravity: Gravity::default(),
            collision_pairs: CollisionPairs::default(),
            contacts: Contacts::default(),
            static_contacts: StaticContacts::default(),
        };
        proof {
            assert(views(w.bodies@) =~= Seq::<BodyV>::empty());
        }
        w
    }

    /// Adds a body and returns its identity (its index).
    pub fn spawn(&mut self, body: Body) -> (id: usize)
        ensures
            id == old(self).bodies@.len(),
            views(final(self).bodies@) == views(old(self).bodies@).push(body@),
            final(self).gravity == old(self).gravity,
            final(self).collision_pairs.0@ == old(self).collision_pairs.0@,
            final(self).contacts.0@ == old(self).contacts.0@,
            final(self).static_contacts.0@ == old(self).static_contacts.0@,
    {
        let id = self.bodies.len();
        self.bodies.push(body);
        proof {
            assert(views(self.bodies@) =~= views(old(self).bodies@).push(body@));
        }
        id
    }
}

/// Everything a dynamic circle body needs.
pub struct ParticleBundle {
    pub pos: Pos,
    pub prev_pos: PrevPos,
    pub mass: Mass,
    pub collider: CircleCollider,
    pub vel: Vel,
    pub presolve_vel: PreSolveVel,
    pub restitution: Restitution,
}

/// Everything a dynamic box body needs.
pub struct DynamicBoxBundle {
    pub pos: Pos,
    pub prev_pos: PrevPos,
    pub mass: Mass,
    pub collider: BoxCollider,
    pub vel: Vel,
    pub presolve_vel: PreSolveVel,
    pub restitution: Restitution,
}

/// A static circle: position, collider and restitution only.
pub struct StaticCircleBundle {
    pub pos: Pos,
    pub collider: CircleCollider,
    pub restitution: Restitution,
}

/// A static box: position, collider and restitution only.
pub struct StaticBoxBundle {
    pub pos: Pos,
    pub collider: BoxCollider,
    pub restitution: Restitution,
}

impl Default for ParticleBundle {
    fn default() -> (r: Self)
        ensures
            r.pos.0@ == (Vec2V { x: 0, y: 0 }),
            r.prev_pos.0@ == (Vec2V { x: 0, y: 0 }),
            r.mass.0 == 1_000_000,
            r.collider.radius == 500_000,
            r.vel.0@ == (Vec2V { x: 0, y: 0 }),
            r.presolve_vel.0@ == (Vec2V { x: 0, y: 0 }),
            r.restitution.0 == 300_000,
    {
        ParticleBundle {
            pos: Pos::default(),
            prev_pos: PrevPos::default(),
            mass: Mass::default(),
            collider: CircleCollider::default(),
            vel: Vel::default(),
            presolve_vel: PreSolveVel::default(),
            restitution: Restitution::default(),
        }
    }
}

impl ParticleBundle {
    /// A particle at `pos` moving at `vel`, its previous position set one
    /// sub-step back so the first velocity resync is consistent.
    pub fn new_with_pos_and_vel(pos: Vec2, vel: Vec2) -> (r: Self)
        requires
            i64::MIN <= pos.x - div_t(vel.x as int, crate::SUBSTEPS_PER_SECOND as int) <= i64::MAX,
            i64::MIN <= pos.y - div_t(vel.y as int, crate::SUBSTEPS_PER_SECOND as int) <= i64::MAX,
        ensures
            r.pos.0 == pos,
            r.vel.0 == vel,
            r.prev_pos.0@ == (Vec2V {
                x: pos.x - div_t(vel.x as int, crate::SUBSTEPS_PER_SECOND as int),
                y: pos.y - div_t(vel.y as int, crate::SUBSTEPS_PER_SECOND as int),
            }),
            r.mass.0 == 1_000_000,
            r.collider.radius == 500_000,
            r.presolve_vel.0@ == (Vec2V { x: 0, y: 0 }),
            r.restitution.0 == 300_000,
    {
        let dx = crate::math::div_i64(vel.x, crate::SUBSTEPS_PER_SECOND);
        let dy = crate::math::div_i64(vel.y, crate::SUBSTEPS_PER_SECOND);
        proof {
            crate::math::lemma_div_t_abs(vel.x as int, crate::SUBSTEPS_PER_SECOND as int);
            crate::math::lemma_div_t_abs(vel.y as int, crate::SUBSTEPS_PER_SECOND as int);
            crate::math::lemma_div_t_le(
                crate::math::abs_i(vel.x as int),
                crate::SUBSTEPS_PER_SECOND as int,
            );
            crate::math::lemma_div_t_le(
                crate::math::abs_i(vel.y as int),
                crate::SUBSTEPS_PER_SECOND as int,
            );
        }
        ParticleBundle {
            pos: Pos(pos),
            prev_pos: PrevPos(Vec2 { x: pos.x - dx, y: pos.y - dy }),
            vel: Vel(vel),
            mass: Mass::default(),
            collider: CircleCollider::default(),
            presolve_vel: PreSolveVel::default(),
            restitution: Restitution::default(),
        }
    }

    /// The body a particle bundle spawns.
    pub fn into_body(self) -> (r: Body)
        ensures
            r.pos == self.pos,
            r.prev_pos == self.prev_pos,
            r.vel == self.vel,
            r.pre_solve_vel == self.presolve_vel,
            r.mass == Some(self.mass),
            r.restitution == self.restitution,
            r.shape == Shape::Circle(self.collider),
            r.bounds@ == (AabbV { min: Vec2V { x: 0, y: 0 }, max: Vec2V { x: 0, y: 0 } }),
    {
        Body {
            pos: self.pos,
            prev_pos: self.prev_pos,
            vel: self.vel,
            pre_solve_vel: self.presolve_vel,
            mass: Some(self.mass),
            restitution: self.restitution,
            shape: Shape::Circle(self.collider),
            bounds: Aabb::default(),
        }
    }
}

impl DynamicBoxBundle {
    /// The body a dynamic box bundle spawns.
    pub fn into_body(self) -> (r: Body)
        ensures
            r.pos == self.pos,
            r.prev_pos == self.prev_pos,
            r.vel == self.vel,
            r.pre_solve_vel == self.presolve_vel,
            r.mass == Some(self.mass),
            r.restitution == self.restitution,
            r.shape == Shape::Rect(self.collider),
            r.bounds@ == (AabbV { min: Vec2V { x: 0, y: 0 }, max: Vec2V { x: 0, y: 0 } }),
    {
        Body {
            pos: self.pos,
            prev_pos: self.prev_pos,
            vel: self.vel,
            pre_solve_vel: self.presolve_vel,
            mass: Some(self.mass),
            restitution: self.restitution,
            shape: Shape::Rect(self.collider),
            bounds: Aabb::default(),
        }
    }
}

impl Default for DynamicBoxBundle {
    fn default() -> (r: Self)
        ensures
            r.pos.0@ == (Vec2V { x: 0, y: 0 }),
            r.prev_pos.0@ == (Vec2V { x: 0, y: 0 }),
            r.mass.0 == 1_000_000,
            r.collider.size@ == (Vec2V { x: 1_000_000, y: 1_000_000 }),
            r.vel.0@ == (Vec2V { x: 0, y: 0 }),
            r.presolve_vel.0@ == (Vec2V { x: 0, y: 0 }),
            r.restitution.0 == 300_000,
    {
        DynamicBoxBundle {
            pos: Pos::default(),
            prev_pos: PrevPos::default(),
            mass: Mass::default(),
            collider: BoxCollider::default(),
            vel: Vel::default(),
            presolve_vel: PreSolveVel::default(),
            restitution: Restitution::default(),
        }
    }
}

impl StaticCircleBundle {
    /// The body a static circle bundle spawns.
    pub fn into_body(self) -> (r: Body)
        ensures
            r.pos == self.pos,
            r.mass is None,
            r.restitution == self.restitution,
            r.shape == Shape::Circle(self.collider),
            r.prev_pos.0@ == (Vec2V { x: 0, y: 0 }),
            r.vel.0@ == (Vec2V { x: 0, y: 0 }),
            r.pre_solve_vel.0@ == (Vec2V { x: 0, y: 0 }),
            r.bounds@ == (AabbV { min: Vec2V { x: 0, y: 0 }, max: Vec2V { x: 0, y: 0 } }),
    {
        Body {
            pos: self.pos,
            prev_pos: PrevPos::default(),
            vel: Vel::default(),
            pre_solve_vel: PreSolveVel::default(),
            mass: None,
            restitution: self.restitution,
            shape: Shape::Circle(self.collider),
            bounds: Aabb::default(),
        }
    }
}

impl Default for StaticCircleBundle {
    fn default() -> (r: Self)
        ensures
            r.pos.0@ == (Vec2V { x: 0, y: 0 }),
            r.collider.radius == 500_000,
            r.restitution.0 == 300_000,
    {
        StaticCircleBundle {
            pos: Pos::default(),
            collider: CircleCollider::default(),
            restitution: Restitution::default(),
        }
    }
}

impl StaticBoxBundle {
    /// The body a static box bundle spawns.
    pub fn into_body(self) -> (r: Body)
        ensures
            r.pos == self.pos,
            r.mass is None,
            r.restitution == self.restitution,
            r.shape == Shape::Rect(self.collider),
            r.prev_pos.0@ == (Vec2V { x: 0, y: 0 }),
            r.vel.0@ == (Vec2V { x: 0, y: 0 }),
            r.pre_solve_vel.0@ == (Vec2V { x: 0, y: 0 }),
            r.bounds@ == (AabbV { min: Vec2V { x: 0, y: 0 }, max: Vec2V { x: 0, y: 0 } }),
    {
        Body {
            pos: self.pos,
            prev_pos: PrevPos::default(),
            vel: Vel::default(),
            pre_solve_vel: PreSolveVel::default(),
            mass: None,
            restitution: self.restitution,
            shape: Shape::Rect(self.collider),
            bounds: Aabb::default(),
        }
    }
}

impl Default for StaticBoxBundle {
    fn default() -> (r: Self)
        ensures
            r.pos.0@ == (Vec2V { x: 0, y: 0 }),
            r.collider.size@ == (Vec2V { x: 1_000_000, y: 1_000_000 }),
            r.restitution.0 == 300_000,
    {
        StaticBoxBundle {
            pos: Pos::default(),
            collider: BoxCollider::default(),
            restitution: Restitution::default(),
        }
    }
}

} // verus!
