//! The velocity-solve stages of a sub-step: restitution impulses along
//! the normals of the contacts the position solve recorded.
use crate::components::{Vec2, Vec2V, Vel};
use crate::math::{abs_i, div_t, in_i64, min_i};
use crate::math::{div_i128, div_i64, lemma_div_t_mag, mul_i128, mul_wide, narrow};
use crate::solve_pos::{pair_guard, weighted_share, full_share, ContactRec, recs_view};
use crate::solve_pos::{full_share_exec, weighted_share_exec};
use crate::resources::{Contacts, StaticContacts};
use crate::world::{views, same_constitution, Body, BodyV, world_wf};
use vstd::prelude::*;

verus! {

/// The relative velocity of `u` against `v` along the scaled unit normal
/// `n`, in velocity units (the dot product carries a factor of
/// `crate::SCALE`, which is divided back out, truncating toward zero).
pub open spec fn normal_vel(u: Vec2V, v: Vec2V, n: Vec2V) -> int {
    div_t(u.minus(v).dot(n), crate::SCALE as int)
}

/// One dynamic-dynamic contact record solved for restitution: the target
/// outgoing speed is the pre-solve approach speed scaled by the averaged
/// restitution, clamped so it never adds energy, and the impulse that
/// reaches it is split by inverse mass.
pub open spec fn solve_vel_step(bs: Seq<BodyV>, r: ContactRec) -> Seq<BodyV> {
    if !pair_guard(bs, r.a, r.b) {
        bs
    } else {
        let n = r.normal;
        let pre_nv = normal_vel(bs[r.a].pre_solve_vel, bs[r.b].pre_solve_vel, n);
        let nv = normal_vel(bs[r.a].vel, bs[r.b].vel, n);
        let rest = div_t(bs[r.a].restitution + bs[r.b].restitution, 2);
        let rv = min_i(-div_t(rest * pre_nv, crate::SCALE as int), 0);
        let imp = -nv + rv;
        let m_sum = bs[r.a].mass_val() + bs[r.b].mass_val();
        let dva = weighted_share(n, imp, bs[r.b].mass_val(), m_sum);
        let dvb = weighted_share(n, imp, bs[r.a].mass_val(), m_sum);
        bs.update(r.a, BodyV { vel: bs[r.a].vel.plus(dva), ..bs[r.a] }).update(
            r.b,
            BodyV { vel: bs[r.b].vel.minus(dvb), ..bs[r.b] },
        )
    }
}

/// The contact's velocity solve stays within 64-bit range.
pub open spec fn solve_vel_step_ok(bs: Seq<BodyV>, r: ContactRec) -> bool {
    pair_guard(bs, r.a, r.b) ==> {
        let n = r.normal;
        let pre_nv = normal_vel(bs[r.a].pre_solve_vel, bs[r.b].pre_solve_vel, n);
        let nv = normal_vel(bs[r.a].vel, bs[r.b].vel, n);
        let rest = div_t(bs[r.a].restitution + bs[r.b].restitution, 2);
        let mt = div_t(rest * pre_nv, crate::SCALE as int);
        let rv = min_i(-mt, 0);
        let imp = -nv + rv;
        let m_sum = bs[r.a].mass_val() + bs[r.b].mass_val();
        let dva = weighted_share(n, imp, bs[r.b].mass_val(), m_sum);
        let dvb = weighted_share(n, imp, bs[r.a].mass_val(), m_sum);
        &&& abs_i(n.x) <= crate::SCALE
        &&& abs_i(n.y) <= crate::SCALE
        &&& in_i64(pre_nv)
        &&& in_i64(nv)
        &&& in_i64(-mt)
        &&& in_i64(imp)
        &&& in_i64(dva.x)
        &&& in_i64(dva.y)
        &&& in_i64(dvb.x)
        &&& in_i64(dvb.y)
        &&& in_i64(bs[r.a].vel.x + dva.x)
        &&& in_i64(bs[r.a].vel.y + dva.y)
        &&& in_i64(bs[r.b].vel.x - dvb.x)
        &&& in_i64(bs[r.b].vel.y - dvb.y)
    }
}

/// A whole dynamic-dynamic velocity pass, in record order.
pub open spec fn solve_vel_pass(bs: Seq<BodyV>, recs: Seq<ContactRec>) -> Seq<BodyV>
    decreases recs.len(),
{
    if recs.len() <= 0 {
        bs
    } else {
        solve_vel_pass(solve_vel_step(bs, recs[0]), recs.drop_first())
    }
}

/// Every record of the pass stays within range on the states it meets.
pub open spec fn solve_vel_pass_ok(bs: Seq<BodyV>, recs: Seq<ContactRec>) -> bool
    decreases recs.len(),
{
    recs.len() <= 0 || (solve_vel_step_ok(bs, recs[0]) && solve_vel_pass_ok(
        solve_vel_step(bs, recs[0]),
        recs.drop_first(),
    ))
}

/// One dynamic-static contact record solved for restitution: only the
/// dynamic body's velocity changes, by the full impulse (the static side
/// has infinite mass), with no clamp on the restitution target.
pub open spec fn solve_vel_static_step(bs: Seq<BodyV>, r: ContactRec) -> Seq<BodyV> {
    if !(0 <= r.a < bs.len() && 0 <= r.b < bs.len() && bs[r.a].is_dynamic()
        && !bs[r.b].is_dynamic()) {
        bs
    } else {
        let n = r.normal;
        let pre_nv = div_t(bs[r.a].pre_solve_vel.dot(n), crate::SCALE as int);
        let nv = div_t(bs[r.a].vel.dot(n), crate::SCALE as int);
        let rest = div_t(bs[r.a].restitution + bs[r.b].restitution, 2);
        let t = -nv - div_t(rest * pre_nv, crate::SCALE as int);
        let dv = full_share(n, t);
        bs.update(r.a, BodyV { vel: bs[r.a].vel.plus(dv), ..bs[r.a] })
    }
}

/// The record's static velocity solve stays within 64-bit range.
pub open spec fn solve_vel_static_step_ok(bs: Seq<BodyV>, r: ContactRec) -> bool {
    (0 <= r.a < bs.len() && 0 <= r.b < bs.len() && bs[r.a].is_dynamic() && !bs[r.b].is_dynamic())
        ==> {
        let n = r.normal;
        let pre_nv = div_t(bs[r.a].pre_solve_vel.dot(n), crate::SCALE as int);
        let nv = div_t(bs[r.a].vel.dot(n), crate::SCALE as int);
        let rest = div_t(bs[r.a].restitution + bs[r.b].restitution, 2);
        let mt = div_t(rest * pre_nv, crate::SCALE as int);
        let t = -nv - mt;
        let dv = full_share(n, t);
        &&& abs_i(n.x) <= crate::SCALE
        &&& abs_i(n.y) <= crate::SCALE
        &&& in_i64(pre_nv)
        &&& in_i64(nv)
        &&& in_i64(t)
        &&& in_i64(dv.x)
        &&& in_i64(dv.y)
        &&& in_i64(bs[r.a].vel.x + dv.x)
        &&& in_i64(bs[r.a].vel.y + dv.y)
    }
}

/// A whole dynamic-static velocity pass, in record order.
pub open spec fn solve_vel_statics_pass(bs: Seq<BodyV>, recs: Seq<ContactRec>) -> Seq<BodyV>
    decreases recs.len(),
{
    if recs.len() <= 0 {
        bs
    } else {
        solve_vel_statics_pass(solve_vel_static_step(bs, recs[0]), recs.drop_first())
    }
}

/// Every record of the static pass stays within range.
pub open spec fn solve_vel_statics_pass_ok(bs: Seq<BodyV>, recs: Seq<ContactRec>) -> bool
    decreases recs.len(),
{
    recs.len() <= 0 || (solve_vel_static_step_ok(bs, recs[0]) && solve_vel_statics_pass_ok(
        solve_vel_static_step(bs, recs[0]),
        recs.drop_first(),
    ))
}

/// Computes the relative velocity of `u` against `v` along `n`.
fn rel_normal_vel(u: Vec2, v: Vec2, n: Vec2) -> (r: i64)
    requires
        abs_i(n@.x) <= crate::SCALE,
        abs_i(n@.y) <= crate::SCALE,
        in_i64(normal_vel(u@, v@, n@)),
    ensures
        r as int == normal_vel(u@, v@, n@),
{
    let dx: i128 = u.x as i128 - v.x as i128;
    let dy: i128 = u.y as i128 - v.y as i128;
    proof {
        assert(dx * (n@.x as i128) <= i128::MAX && dx * (n@.x as i128) >= i128::MIN && dx * (
        n@.x as i128) == (u@.x - v@.x) * n@.x && abs_i(dx * (n@.x as i128))
            <= 0x2_0000_0000_0000_0000int * 0x0f_4240int) by (nonlinear_arith)
            requires
                -0x2_0000_0000_0000_0000int <= dx <= 0x2_0000_0000_0000_0000int,
                dx == u@.x - v@.x,
                abs_i(n@.x) <= 0x0f_4240int,
                abs_i(n@.x) == if n@.x >= 0 { n@.x } else { -n@.x },
                abs_i(dx * n@.x) == if dx * n@.x >= 0 { dx * n@.x } else { -(dx * n@.x) },
        ;
        assert(dy * (n@.y as i128) <= i128::MAX && dy * (n@.y as i128) >= i128::MIN && dy * (
        n@.y as i128) == (u@.y - v@.y) * n@.y && abs_i(dy * (n@.y as i128))
            <= 0x2_0000_0000_0000_0000int * 0x0f_4240int) by (nonlinear_arith)
            requires
                -0x2_0000_0000_0000_0000int <= dy <= 0x2_0000_0000_0000_0000int,
                dy == u@.y - v@.y,
                abs_i(n@.y) <= 0x0f_4240int,
                abs_i(n@.y) == if n@.y >= 0 { n@.y } else { -n@.y },
                abs_i(dy * n@.y) == if dy * n@.y >= 0 { dy * n@.y } else { -(dy * n@.y) },
        ;
    }
    let px: i128 = mul_i128(dx, n.x as i128);
    let py: i128 = mul_i128(dy, n.y as i128);
    let s: i128 = px + py;
    narrow(div_i128(s, crate::SCALE as i128))
}

/// Half the summed restitution of two bodies.
fn averaged_restitution(ra: i64, rb: i64) -> (r: i64)
    requires
        0 <= ra <= crate::SCALE,
        0 <= rb <= crate::SCALE,
    ensures
        r as int == div_t(ra + rb, 2),
        0 <= r <= crate::SCALE,
{
    proof {
        crate::math::lemma_div_t_le((ra + rb) as int, 2);
        crate::math::lemma_div_t_ordered((ra + rb) as int, 2 * crate::SCALE as int, 2);
    }
    div_i64(ra + rb, 2)
}

/// The restitution-scaled approach speed: `rest * pre_nv / SCALE`,
/// truncated; its magnitude never exceeds the approach speed.
fn restitution_target(rest: i64, pre_nv: i64) -> (r: i64)
    requires
        0 <= rest <= crate::SCALE,
    ensures
        r as int == div_t(rest * pre_nv, crate::SCALE as int),
        abs_i(r as int) <= abs_i(pre_nv as int),
{
    proof {
        assert(abs_i(rest * pre_nv) <= abs_i(pre_nv as int) * crate::SCALE) by (nonlinear_arith)
            requires
                0 <= rest <= crate::SCALE,
                crate::SCALE == 0x0f_4240,
                abs_i(pre_nv as int) == if pre_nv >= 0 { pre_nv as int } else { -(pre_nv as int) },
                abs_i(rest * pre_nv) == if rest * pre_nv >= 0 { rest * pre_nv } else { -(rest * pre_nv) },
        ;
        lemma_div_t_mag(rest * pre_nv, crate::SCALE as int, abs_i(pre_nv as int));
        crate::math::lemma_div_t_sign(rest * pre_nv, crate::SCALE as int);
        if pre_nv >= 0 {
            assert(rest * pre_nv >= 0) by (nonlinear_arith)
                requires
                    rest >= 0,
                    pre_nv >= 0,
            ;
        } else {
            assert(rest * pre_nv <= 0) by (nonlinear_arith)
                requires
                    rest >= 0,
                    pre_nv < 0,
            ;
        }
    }
    narrow(div_i128(mul_wide(rest, pre_nv), crate::SCALE as i128))
}


/// Velocity solve for the sub-step's dynamic-dynamic contact records.
#[verifier::rlimit(100)]
#[verifier::loop_isolation(false)]
pub fn solve_vel(bodies: &mut Vec<Body>, contacts: &Contacts)
    requires
        world_wf(views(old(bodies)@)),
        solve_vel_pass_ok(views(old(bodies)@), recs_view(contacts.0@)),
    ensures
        views(final(bodies)@) == solve_vel_pass(views(old(bodies)@), recs_view(contacts.0@)),
        final(bodies)@.len() == old(bodies)@.len(),
        world_wf(views(final(bodies)@)),
        forall|j: int|
            0 <= j < old(bodies)@.len() && !views(old(bodies)@)[j].is_dynamic()
                ==> final(bodies)@[j] == old(bodies)@[j],
        forall|j: int|
            0 <= j < old(bodies)@.len() ==> same_constitution(
                (#[trigger] final(bodies)@[j])@,
                views(old(bodies)@)[j],
            ),
{
    let ghost bs0 = views(old(bodies)@);
    let ghost recs = recs_view(contacts.0@);
    let ghost full = solve_vel_pass(bs0, recs);
    let n = bodies.len();
    let m = contacts.0.len();
    proof {
        assert(recs.skip(0) =~= recs);
    }
    let mut k: usize = 0;
    while k < m
        invariant
            bodies@.len() == n,
            k <= m,
            world_wf(views(bodies@)),
            solve_vel_pass(views(bodies@), recs.skip(k as int)) == full,
            solve_vel_pass_ok(views(bodies@), recs.skip(k as int)),
            forall|q: int|
                0 <= q < n && !bs0[q].is_dynamic() ==> #[trigger] bodies@[q] == old(bodies)@[q],
            forall|q: int|
                0 <= q < n ==> same_constitution((#[trigger] bodies@[q])@, bs0[q]),
        decreases m - k,
    {
        let ghost pre = views(bodies@);
        let ghost rem = recs.skip(k as int);
        let t = contacts.0[k];
        let ai = t.0;
        let bi = t.1;
        let nrm = t.2;
        proof {
            assert(rem[0] == recs[k as int]);
            assert(recs[k as int] == (ContactRec { a: ai as int, b: bi as int, normal: nrm@ }));
            assert(rem.drop_first() =~= recs.skip(k as int + 1));
            assert(solve_vel_step_ok(pre, rem[0]));
        }
        let ghost st = solve_vel_step(pre, rem[0]);
        if ai < n && bi < n && ai != bi {
            let body_a = bodies[ai];
            let body_b = bodies[bi];
            proof {
                assert(body_a@ == pre[ai as int] && body_b@ == pre[bi as int]);
            }
            match (body_a.mass, body_b.mass) {
                (Some(ma), Some(mb)) => {
                    proof {
                        assert(pair_guard(pre, ai as int, bi as int));
                    }
                    let pre_nv = rel_normal_vel(body_a.pre_solve_vel.0, body_b.pre_solve_vel.0, nrm);
                    let nv = rel_normal_vel(body_a.vel.0, body_b.vel.0, nrm);
                    let rest = averaged_restitution(body_a.restitution.0, body_b.restitution.0);
                    let mt = restitution_target(rest, pre_nv);
                    let negmt = narrow(-(mt as i128));
                    let rv: i64 = if negmt < 0 {
                        negmt
                    } else {
                        0
                    };
                    proof {
                        assert(rv as int == min_i(-(mt as int), 0));
                    }
                    let imp = narrow(-(nv as i128) + (rv as i128));
                    let m_sum = ma.0 + mb.0;
                    let dva = weighted_share_exec(nrm, imp, mb.0, m_sum);
                    let dvb = weighted_share_exec(nrm, imp, ma.0, m_sum);
                    bodies[ai] = Body {
                        vel: Vel(Vec2 { x: body_a.vel.0.x + dva.x, y: body_a.vel.0.y + dva.y }),
                        ..body_a
                    };
                    bodies[bi] = Body {
                        vel: Vel(Vec2 { x: body_b.vel.0.x - dvb.x, y: body_b.vel.0.y - dvb.y }),
                        ..body_b
                    };
                    proof {
                        assert(views(bodies@) =~= st);
                    }
                },
                _ => {
                    proof {
                        assert(!pair_guard(pre, ai as int, bi as int));
                        assert(views(bodies@) == st);
                    }
                },
            }
        } else {
            proof {
                assert(!pair_guard(pre, ai as int, bi as int));
                assert(views(bodies@) == st);
            }
        }
        k = k + 1;
        proof {
            assert(solve_vel_pass(pre, rem) == solve_vel_pass(st, rem.drop_first()));
        }
    }
    proof {
        assert(recs.skip(m as int) =~= Seq::<ContactRec>::empty());
    }
}

/// Velocity solve for the sub-step's dynamic-static contact records.
#[verifier::rlimit(100)]
#[verifier::loop_isolation(false)]
pub fn solve_vel_statics(bodies: &mut Vec<Body>, contacts: &StaticContacts)
    requires
        world_wf(views(old(bodies)@)),
        solve_vel_statics_pass_ok(views(old(bodies)@), recs_view(contacts.0@)),
    ensures
        views(final(bodies)@) == solve_vel_statics_pass(
            views(old(bodies)@),
            recs_view(contacts.0@),
        ),
        final(bodies)@.len() == old(bodies)@.len(),
        world_wf(views(final(bodies)@)),
        forall|j: int|
            0 <= j < old(bodies)@.len() && !views(old(bodies)@)[j].is_dynamic()
                ==> final(bodies)@[j] == old(bodies)@[j],
        forall|j: int|
            0 <= j < old(bodies)@.len() ==> same_constitution(
                (#[trigger] final(bodies)@[j])@,
                views(old(bodies)@)[j],
            ),
{
    let ghost bs0 = views(old(bodies)@);
    let ghost recs = recs_view(contacts.0@);
    let ghost full = solve_vel_statics_pass(bs0, recs);
    let n = bodies.len();
    let m = contacts.0.len();
    proof {
        assert(recs.skip(0) =~= recs);
    }
    let mut k: usize = 0;
    while k < m
        invariant
            bodies@.len() == n,
            k <= m,
            world_wf(views(bodies@)),
            solve_vel_statics_pass(views(bodies@), recs.skip(k as int)) == full,
            solve_vel_statics_pass_ok(views(bodies@), recs.skip(k as int)),
            forall|q: int|
                0 <= q < n && !bs0[q].is_dynamic() ==> #[trigger] bodies@[q] == old(bodies)@[q],
            forall|q: int|
                0 <= q < n ==> same_constitution((#[trigger] bodies@[q])@, bs0[q]),
        decreases m - k,
    {
        let ghost pre = views(bodies@);
        let ghost rem = recs.skip(k as int);
        let t = contacts.0[k];
        let ai = t.0;
        let bi = t.1;
        let nrm = t.2;
        proof {
            assert(rem[0] == recs[k as int]);
            assert(recs[k as int] == (ContactRec { a: ai as int, b: bi as int, normal: nrm@ }));
            assert(rem.drop_first() =~= recs.skip(k as int + 1));
            assert(solve_vel_static_step_ok(pre, rem[0]));
        }
        let ghost st = solve_vel_static_step(pre, rem[0]);
        if ai < n && bi < n {
            let body_a = bodies[ai];
            let body_b = bodies[bi];
            proof {
                assert(body_a@ == pre[ai as int] && body_b@ == pre[bi as int]);
            }
            match (body_a.mass, body_b.mass) {
                (Some(_ma), None) => {
                    let zero = Vec2 { x: 0, y: 0 };
                    proof {
                        assert(body_a.pre_solve_vel.0@.minus(zero@) == body_a.pre_solve_vel.0@);
                        assert(body_a.vel.0@.minus(zero@) == body_a.vel.0@);
                    }
                    let pre_nv = rel_normal_vel(body_a.pre_solve_vel.0, zero, nrm);
                    let nv = rel_normal_vel(body_a.vel.0, zero, nrm);
                    let rest = averaged_restitution(body_a.restitution.0, body_b.restitution.0);
                    let mt = restitution_target(rest, pre_nv);
                    let t2 = narrow(-(nv as i128) - (mt as i128));
                    let dv = full_share_exec(nrm, t2);
                    bodies[ai] = Body {
                        vel: Vel(Vec2 { x: body_a.vel.0.x + dv.x, y: body_a.vel.0.y + dv.y }),
                        ..body_a
                    };
                    proof {
                        assert(views(bodies@) =~= st);
                    }
                },
                _ => {
                    proof {
                        assert(views(bodies@) == st);
                    }
                },
            }
        } else {
            proof {
                assert(views(bodies@) == st);
            }
        }
        k = k + 1;
        proof {
            assert(solve_vel_statics_pass(pre, rem) == solve_vel_statics_pass(
                st,
                rem.drop_first(),
            ));
        }
    }
    proof {
        assert(recs.skip(m as int) =~= Seq::<ContactRec>::empty());
    }
}

} // verus!
