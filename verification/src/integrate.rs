//! The two per-body sweeps of a sub-step: gravity integration at its start
//! and the velocity resync after the position solve.
use crate::components::{Pos, PreSolveVel, PrevPos, Vec2, Vec2V, Vel};
use crate::math::{div_t, in_i64};
use crate::math::{div_i64, mul_i128, narrow};
use crate::resources::Gravity;
use crate::world::{views, Body, BodyV};
use vstd::prelude::*;

verus! {

/// One dynamic body after integration: the previous position is
/// remembered, gravity is applied over one sub-step, the position moves by
/// one sub-step of the new velocity, and that velocity is snapshotted.
/// Static bodies are untouched.
pub open spec fn integrate_body(b: BodyV, g: Vec2V) -> BodyV {
    if b.is_dynamic() {
        let v = Vec2V {
            x: b.vel.x + div_t(g.x, crate::SUBSTEPS_PER_SECOND as int),
            y: b.vel.y + div_t(g.y, crate::SUBSTEPS_PER_SECOND as int),
        };
        let p = Vec2V {
            x: b.pos.x + div_t(v.x, crate::SUBSTEPS_PER_SECOND as int),
            y: b.pos.y + div_t(v.y, crate::SUBSTEPS_PER_SECOND as int),
        };
        BodyV { pos: p, prev_pos: b.pos, vel: v, pre_solve_vel: v, ..b }
    } else {
        b
    }
}

/// Integration writes stay within 64-bit range for this body.
pub open spec fn integrate_body_ok(b: BodyV, g: Vec2V) -> bool {
    b.is_dynamic() ==> {
        let v = Vec2V {
            x: b.vel.x + div_t(g.x, crate::SUBSTEPS_PER_SECOND as int),
            y: b.vel.y + div_t(g.y, crate::SUBSTEPS_PER_SECOND as int),
        };
        &&& in_i64(v.x)
        &&& in_i64(v.y)
        &&& in_i64(b.pos.x + div_t(v.x, crate::SUBSTEPS_PER_SECOND as int))
        &&& in_i64(b.pos.y + div_t(v.y, crate::SUBSTEPS_PER_SECOND as int))
    }
}

/// The whole world after integration.
pub open spec fn integrate_spec(bs: Seq<BodyV>, g: Vec2V) -> Seq<BodyV> {
    bs.map_values(|b: BodyV| integrate_body(b, g))
}

/// Integration stays in range for every body.
pub open spec fn integrate_all_ok(bs: Seq<BodyV>, g: Vec2V) -> bool {
    forall|i: int| 0 <= i < bs.len() ==> integrate_body_ok(#[trigger] bs[i], g)
}

/// Applies gravity and advances every dynamic body by one sub-step.
pub fn integrate(bodies: &mut Vec<Body>, gravity: &Gravity)
    requires
        integrate_all_ok(views(old(bodies)@), gravity.0@),
    ensures
        views(final(bodies)@) == integrate_spec(views(old(bodies)@), gravity.0@),
        final(bodies)@.len() == old(bodies)@.len(),
        forall|i: int|
            0 <= i < old(bodies)@.len() && !views(old(bodies)@)[i].is_dynamic()
                ==> final(bodies)@[i] == old(bodies)@[i],
{
    let ghost bs0 = views(old(bodies)@);
    let g = gravity.0;
    let gsx = div_i64(g.x, crate::SUBSTEPS_PER_SECOND);
    let gsy = div_i64(g.y, crate::SUBSTEPS_PER_SECOND);
    let n = bodies.len();
    let mut i: usize = 0;
    while i < n
        invariant
            n == bodies@.len() == bs0.len(),
            bs0 == views(old(bodies)@),
            i <= n,
            g == gravity.0,
            gsx as int == div_t(g@.x, crate::SUBSTEPS_PER_SECOND as int),
            gsy as int == div_t(g@.y, crate::SUBSTEPS_PER_SECOND as int),
            integrate_all_ok(bs0, g@),
            forall|j: int| 0 <= j < i ==> (#[trigger] bodies@[j])@ == integrate_body(bs0[j], g@),
            forall|j: int|
                0 <= j < i && !bs0[j].is_dynamic() ==> #[trigger] bodies@[j] == old(bodies)@[j],
            forall|j: int| i <= j < n ==> #[trigger] bodies@[j] == old(bodies)@[j],
        decreases n - i,
    {
        let b = bodies[i];
        proof {
            assert(b@ == bs0[i as int]);
            assert(integrate_body_ok(bs0[i as int], g@));
        }
        if b.mass.is_some() {
            let vx = b.vel.0.x + gsx;
            let vy = b.vel.0.y + gsy;
            let px = b.pos.0.x + div_i64(vx, crate::SUBSTEPS_PER_SECOND);
            let py = b.pos.0.y + div_i64(vy, crate::SUBSTEPS_PER_SECOND);
            let nb = Body {
                pos: Pos(Vec2 { x: px, y: py }),
                prev_pos: PrevPos(b.pos.0),
                vel: Vel(Vec2 { x: vx, y: vy }),
                pre_solve_vel: PreSolveVel(Vec2 { x: vx, y: vy }),
                ..b
            };
            bodies[i] = nb;
            proof {
                assert(bodies@[i as int]@ == integrate_body(bs0[i as int], g@));
            }
        } else {
            proof {
                assert(!bs0[i as int].is_dynamic());
                assert(bodies@[i as int]@ == integrate_body(bs0[i as int], g@));
            }
        }
        i = i + 1;
    }
    proof {
        assert forall|j: int| 0 <= j < n implies views(bodies@)[j] == integrate_spec(bs0, g@)[j] by {
            assert(bodies@[j]@ == integrate_body(bs0[j], g@));
        }
        assert(views(bodies@) =~= integrate_spec(bs0, gravity.0@));
    }
}

/// One dynamic body after the velocity resync: the velocity becomes the
/// sub-step's net displacement divided by the sub-step duration.
pub open spec fn update_vel_body(b: BodyV) -> BodyV {
    if b.is_dynamic() {
        BodyV {
            vel: Vec2V {
                x: (b.pos.x - b.prev_pos.x) * crate::SUBSTEPS_PER_SECOND,
                y: (b.pos.y - b.prev_pos.y) * crate::SUBSTEPS_PER_SECOND,
            },
            ..b
        }
    } else {
        b
    }
}

/// The resync's writes stay within 64-bit range for this body.
pub open spec fn update_vel_body_ok(b: BodyV) -> bool {
    b.is_dynamic() ==> {
        &&& in_i64((b.pos.x - b.prev_pos.x) * crate::SUBSTEPS_PER_SECOND)
        &&& in_i64((b.pos.y - b.prev_pos.y) * crate::SUBSTEPS_PER_SECOND)
    }
}

/// The whole world after the velocity resync.
pub open spec fn update_vel_spec(bs: Seq<BodyV>) -> Seq<BodyV> {
    bs.map_values(|b: BodyV| update_vel_body(b))
}

/// The resync stays in range for every body.
pub open spec fn update_vel_all_ok(bs: Seq<BodyV>) -> bool {
    forall|i: int| 0 <= i < bs.len() ==> update_vel_body_ok(#[trigger] bs[i])
}

/// Resyncs every dynamic body's velocity from its sub-step displacement.
pub fn update_vel(bodies: &mut Vec<Body>)
    requires
        update_vel_all_ok(views(old(bodies)@)),
    ensures
        views(final(bodies)@) == update_vel_spec(views(old(bodies)@)),
        final(bodies)@.len() == old(bodies)@.len(),
        forall|i: int|
            0 <= i < old(bodies)@.len() && !views(old(bodies)@)[i].is_dynamic()
                ==> final(bodies)@[i] == old(bodies)@[i],
{
    let ghost bs0 = views(old(bodies)@);
    let n = bodies.len();
    let mut i: usize = 0;
    while i < n
        invariant
            n == bodies@.len() == bs0.len(),
            bs0 == views(old(bodies)@),
            i <= n,
            update_vel_all_ok(bs0),
            forall|j: int| 0 <= j < i ==> (#[trigger] bodies@[j])@ == update_vel_body(bs0[j]),
            forall|j: int|
                0 <= j < i && !bs0[j].is_dynamic() ==> #[trigger] bodies@[j] == old(bodies)@[j],
            forall|j: int| i <= j < n ==> #[trigger] bodies@[j] == old(bodies)@[j],
        decreases n - i,
    {
        let b = bodies[i];
        proof {
            assert(b@ == bs0[i as int]);
            assert(update_vel_body_ok(bs0[i as int]));
        }
        if b.mass.is_some() {
            let dx: i128 = b.pos.0.x as i128 - b.prev_pos.0.x as i128;
            let dy: i128 = b.pos.0.y as i128 - b.prev_pos.0.y as i128;
            proof {
                assert(dx * (crate::SUBSTEPS_PER_SECOND as i128) == (b@.pos.x - b@.prev_pos.x)
                    * crate::SUBSTEPS_PER_SECOND);
                assert(dy * (crate::SUBSTEPS_PER_SECOND as i128) == (b@.pos.y - b@.prev_pos.y)
                    * crate::SUBSTEPS_PER_SECOND);
            }
            let vx = narrow(mul_i128(dx, crate::SUBSTEPS_PER_SECOND as i128));
            let vy = narrow(mul_i128(dy, crate::SUBSTEPS_PER_SECOND as i128));
            let nb = Body { vel: Vel(Vec2 { x: vx, y: vy }), ..b };
            bodies[i] = nb;
            proof {
                assert(bodies@[i as int]@ == update_vel_body(bs0[i as int]));
            }
        } else {
            proof {
                assert(!bs0[i as int].is_dynamic());
                assert(bodies@[i as int]@ == update_vel_body(bs0[i as int]));
            }
        }
        i = i + 1;
    }
    proof {
        assert forall|j: int| 0 <= j < n implies views(bodies@)[j] == update_vel_spec(bs0)[j] by {
            assert(bodies@[j]@ == update_vel_body(bs0[j]));
        }
        assert(views(bodies@) =~= update_vel_spec(bs0));
    }
}

} // verus!
