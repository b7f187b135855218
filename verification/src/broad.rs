//! The broad phase: per-frame bounding-box refresh with a speed-scaled
//! safety margin, and candidate pair collection by box overlap.
use crate::components::{Aabb, AabbV, Vec2, Vec2V, aabb_overlaps};
use crate::math::{div_t, in_i64, isqrt_i};
use crate::math::{isqrt_u128, mul_wide};
use crate::resources::CollisionPairs;
use crate::world::{views, Body, BodyV, same_constitution};
use vstd::prelude::*;

verus! {

/// The safety margin a body's box is inflated by: its speed divided by
/// `crate::MARGIN_DIVISOR`, which makes it twice the distance the body
/// travels in an outer frame.
pub open spec fn aabb_margin(b: BodyV) -> int {
    div_t(isqrt_i(b.vel.len_sq()), crate::MARGIN_DIVISOR as int)
}

/// A dynamic circle body's refreshed bounding box.
pub open spec fn circle_aabb(b: BodyV) -> AabbV {
    let h = b.shape->radius + aabb_margin(b);
    AabbV {
        min: Vec2V { x: b.pos.x - h, y: b.pos.y - h },
        max: Vec2V { x: b.pos.x + h, y: b.pos.y + h },
    }
}

/// A dynamic box body's refreshed bounding box.
pub open spec fn rect_aabb(b: BodyV) -> AabbV {
    let hx = div_t(b.shape->size.x, 2) + aabb_margin(b);
    let hy = div_t(b.shape->size.y, 2) + aabb_margin(b);
    AabbV {
        min: Vec2V { x: b.pos.x - hx, y: b.pos.y - hy },
        max: Vec2V { x: b.pos.x + hx, y: b.pos.y + hy },
    }
}

/// One body after the circle bounding-box refresh.
pub open spec fn update_aabb_circle_body(b: BodyV) -> BodyV {
    if b.is_dynamic() && b.shape is Circle {
        BodyV { bounds: circle_aabb(b), ..b }
    } else {
        b
    }
}

/// One body after the box bounding-box refresh.
pub open spec fn update_aabb_rect_body(b: BodyV) -> BodyV {
    if b.is_dynamic() && b.shape is Rect {
        BodyV { bounds: rect_aabb(b), ..b }
    } else {
        b
    }
}

/// The refreshed circle box stays within 64-bit range.
pub open spec fn update_aabb_circle_body_ok(b: BodyV) -> bool {
    (b.is_dynamic() && b.shape is Circle) ==> {
        let h = b.shape->radius + aabb_margin(b);
        in_i64(b.pos.x - h) && in_i64(b.pos.y - h) && in_i64(b.pos.x + h) && in_i64(b.pos.y + h)
    }
}

/// The refreshed rectangle box stays within 64-bit range.
pub open spec fn update_aabb_rect_body_ok(b: BodyV) -> bool {
    (b.is_dynamic() && b.shape is Rect) ==> {
        let hx = div_t(b.shape->size.x, 2) + aabb_margin(b);
        let hy = div_t(b.shape->size.y, 2) + aabb_margin(b);
        in_i64(b.pos.x - hx) && in_i64(b.pos.y - hy) && in_i64(b.pos.x + hx) && in_i64(
            b.pos.y + hy,
        )
    }
}

/// The whole world after the circle refresh.
pub open spec fn update_aabb_circle_spec(bs: Seq<BodyV>) -> Seq<BodyV> {
    bs.map_values(|b: BodyV| update_aabb_circle_body(b))
}

/// The whole world after the box refresh.
pub open spec fn update_aabb_rect_spec(bs: Seq<BodyV>) -> Seq<BodyV> {
    bs.map_values(|b: BodyV| update_aabb_rect_body(b))
}

/// The circle refresh stays in range for every body.
pub open spec fn update_aabb_circle_all_ok(bs: Seq<BodyV>) -> bool {
    forall|i: int| 0 <= i < bs.len() ==> update_aabb_circle_body_ok(#[trigger] bs[i])
}

/// The box refresh stays in range for every body.
pub open spec fn update_aabb_rect_all_ok(bs: Seq<BodyV>) -> bool {
    forall|i: int| 0 <= i < bs.len() ==> update_aabb_rect_body_ok(#[trigger] bs[i])
}

/// Computes a body's speed (the floor of its velocity's length).
fn body_speed(b: &Body) -> (r: u64)
    ensures
        r == isqrt_i(b@.vel.len_sq()),
{
    let sx: i128 = mul_wide(b.vel.0.x, b.vel.0.x);
    let sy: i128 = mul_wide(b.vel.0.y, b.vel.0.y);
    proof {
        assert(b@.vel.x * b@.vel.x >= 0 && b@.vel.x * b@.vel.x
            <= 0x4000_0000_0000_0000_0000_0000_0000_0000int) by (nonlinear_arith)
            requires
                -0x8000_0000_0000_0000int <= b@.vel.x <= 0x7fff_ffff_ffff_ffffint,
        ;
        assert(b@.vel.y * b@.vel.y >= 0 && b@.vel.y * b@.vel.y
            <= 0x4000_0000_0000_0000_0000_0000_0000_0000int) by (nonlinear_arith)
            requires
                -0x8000_0000_0000_0000int <= b@.vel.y <= 0x7fff_ffff_ffff_ffffint,
        ;
    }
    let n: u128 = (sx as u128) + (sy as u128);
    isqrt_u128(n)
}

/// Refreshes the margin-inflated bounding box of every dynamic circle.
pub fn update_aabb_circle(bodies: &mut Vec<Body>)
    requires
        update_aabb_circle_all_ok(views(old(bodies)@)),
        crate::world::world_wf(views(old(bodies)@)),
    ensures
        views(final(bodies)@) == update_aabb_circle_spec(views(old(bodies)@)),
        final(bodies)@.len() == old(bodies)@.len(),
        forall|i: int|
            0 <= i < old(bodies)@.len() && !views(old(bodies)@)[i].is_dynamic()
                ==> final(bodies)@[i] == old(bodies)@[i],
        forall|i: int|
            0 <= i < old(bodies)@.len() ==> same_constitution(
                (#[trigger] final(bodies)@[i])@,
                views(old(bodies)@)[i],
            ),
{
    let ghost bs0 = views(old(bodies)@);
    let n = bodies.len();
    let mut i: usize = 0;
    while i < n
        invariant
            n == bodies@.len() == bs0.len(),
            bs0 == views(old(bodies)@),
            i <= n,
            update_aabb_circle_all_ok(bs0),
            crate::world::world_wf(bs0),
            forall|j: int| 0 <= j < i ==> (#[trigger] bodies@[j])@ == update_aabb_circle_body(bs0[j]),
            forall|j: int|
                0 <= j < i && !bs0[j].is_dynamic() ==> #[trigger] bodies@[j] == old(bodies)@[j],
            forall|j: int| i <= j < n ==> #[trigger] bodies@[j] == old(bodies)@[j],
        decreases n - i,
    {
        let b = bodies[i];
        proof {
            assert(b@ == bs0[i as int]);
            assert(update_aabb_circle_body_ok(bs0[i as int]));
            assert(crate::world::body_wf(bs0[i as int]));
        }
        match (b.mass, b.shape) {
            (Some(_), crate::world::Shape::Circle(c)) => {
                let speed = body_speed(&b);
                let margin: i64 = (speed / (crate::MARGIN_DIVISOR as u64)) as i64;
                proof {
                    assert(speed / (crate::MARGIN_DIVISOR as u64) == aabb_margin(bs0[i as int]));
                    crate::math::lemma_div_t_ordered(speed as int, u64::MAX as int, 30);
                    assert(speed / (crate::MARGIN_DIVISOR as u64) <= u64::MAX / 30);
                }
                let h = c.radius + margin;
                let nb = Body {
                    bounds: Aabb {
                        min: Vec2 { x: b.pos.0.x - h, y: b.pos.0.y - h },
                        max: Vec2 { x: b.pos.0.x + h, y: b.pos.0.y + h },
                    },
                    ..b
                };
                bodies[i] = nb;
                proof {
                    assert(bodies@[i as int]@ == update_aabb_circle_body(bs0[i as int]));
                }
            },
            _ => {
                proof {
                    assert(bodies@[i as int]@ == update_aabb_circle_body(bs0[i as int]));
                }
            },
        }
        i = i + 1;
    }
    proof {
        assert forall|j: int| 0 <= j < n implies views(bodies@)[j] == update_aabb_circle_spec(
            bs0,
        )[j] by {
            assert(bodies@[j]@ == update_aabb_circle_body(bs0[j]));
        }
        assert(views(bodies@) =~= update_aabb_circle_spec(bs0));
    }
}

/// Refreshes the margin-inflated bounding box of every dynamic box.
pub fn update_aabb_box(bodies: &mut Vec<Body>)
    requires
        update_aabb_rect_all_ok(views(old(bodies)@)),
        crate::world::world_wf(views(old(bodies)@)),
    ensures
        views(final(bodies)@) == update_aabb_rect_spec(views(old(bodies)@)),
        final(bodies)@.len() == old(bodies)@.len(),
        forall|i: int|
            0 <= i < old(bodies)@.len() && !views(old(bodies)@)[i].is_dynamic()
                ==> final(bodies)@[i] == old(bodies)@[i],
        forall|i: int|
            0 <= i < old(bodies)@.len() ==> same_constitution(
                (#[trigger] final(bodies)@[i])@,
                views(old(bodies)@)[i],
            ),
{
    let ghost bs0 = views(old(bodies)@);
    let n = bodies.len();
    let mut i: usize = 0;
    while i < n
        invariant
            n == bodies@.len() == bs0.len(),
            bs0 == views(old(bodies)@),
            i <= n,
            update_aabb_rect_all_ok(bs0),
            crate::world::world_wf(bs0),
            forall|j: int| 0 <= j < i ==> (#[trigger] bodies@[j])@ == update_aabb_rect_body(bs0[j]),
            forall|j: int|
                0 <= j < i && !bs0[j].is_dynamic() ==> #[trigger] bodies@[j] == old(bodies)@[j],
            forall|j: int| i <= j < n ==> #[trigger] bodies@[j] == old(bodies)@[j],
        decreases n - i,
    {
        let b = bodies[i];
        proof {
            assert(b@ == bs0[i as int]);
            assert(update_aabb_rect_body_ok(bs0[i as int]));
            assert(crate::world::body_wf(bs0[i as int]));
        }
        match (b.mass, b.shape) {
            (Some(_), crate::world::Shape::Rect(c)) => {
                let speed = body_speed(&b);
                let margin: i64 = (speed / (crate::MARGIN_DIVISOR as u64)) as i64;
                proof {
                    assert(speed / (crate::MARGIN_DIVISOR as u64) == aabb_margin(bs0[i as int]));
                    crate::math::lemma_div_t_ordered(speed as int, u64::MAX as int, 30);
                    assert(speed / (crate::MARGIN_DIVISOR as u64) <= u64::MAX / 30);
                    crate::math::lemma_div_t_le(c.size.x as int, 2);
                    crate::math::lemma_div_t_le(c.size.y as int, 2);
                }
                let hx = crate::math::div_i64(c.size.x, 2) + margin;
                let hy = crate::math::div_i64(c.size.y, 2) + margin;
                let nb = Body {
                    bounds: Aabb {
                        min: Vec2 { x: b.pos.0.x - hx, y: b.pos.0.y - hy },
                        max: Vec2 { x: b.pos.0.x + hx, y: b.pos.0.y + hy },
                    },
                    ..b
                };
                bodies[i] = nb;
                proof {
                    assert(bodies@[i as int]@ == update_aabb_rect_body(bs0[i as int]));
                }
            },
            _ => {
                proof {
                    assert(bodies@[i as int]@ == update_aabb_rect_body(bs0[i as int]));
                }
            },
        }
        i = i + 1;
    }
    proof {
        assert forall|j: int| 0 <= j < n implies views(bodies@)[j] == update_aabb_rect_spec(
            bs0,
        )[j] by {
            assert(bodies@[j]@ == update_aabb_rect_body(bs0[j]));
        }
        assert(views(bodies@) =~= update_aabb_rect_spec(bs0));
    }
}

/// A broad-phase candidate: two distinct dynamic bodies, the higher
/// identity first, whose bounding boxes overlap.
pub open spec fn pair_candidate(bs: Seq<BodyV>, a: int, b: int) -> bool {
    0 <= b < a < bs.len() && bs[a].is_dynamic() && bs[b].is_dynamic() && aabb_overlaps(
        bs[a].bounds,
        bs[b].bounds,
    )
}

/// One row of the candidate list: the pairs `(a, b)` for this `a`, with
/// `b` ascending below it.
pub open spec fn collect_row(bs: Seq<BodyV>, a: int, b: int) -> Seq<(usize, usize)>
    decreases a - b,
{
    if b < 0 || b >= a {
        Seq::empty()
    } else {
        let rest = collect_row(bs, a, b + 1);
        if pair_candidate(bs, a, b) {
            seq![(a as usize, b as usize)] + rest
        } else {
            rest
        }
    }
}

/// The candidate rows from `a` upward, in order.
pub open spec fn collect_from(bs: Seq<BodyV>, a: int) -> Seq<(usize, usize)>
    decreases bs.len() - a,
{
    if a < 0 || a >= bs.len() {
        Seq::empty()
    } else {
        collect_row(bs, a, 0) + collect_from(bs, a + 1)
    }
}

/// The whole candidate list, in collection order.
pub open spec fn collect_spec(bs: Seq<BodyV>) -> Seq<(usize, usize)> {
    collect_from(bs, 0)
}

/// Collects every broad-phase candidate pair, exactly once, each with the
/// higher identity first, in ascending order.
#[verifier::rlimit(60)]
#[verifier::loop_isolation(false)]
pub fn collect_collision_pairs(bodies: &Vec<Body>, pairs: &mut CollisionPairs)
    ensures
        forall|k: int|
            0 <= k < final(pairs).0@.len() ==> pair_candidate(
                views(bodies@),
                (#[trigger] final(pairs).0@[k]).0 as int,
                final(pairs).0@[k].1 as int,
            ),
        forall|a: usize, b: usize|
            pair_candidate(views(bodies@), a as int, b as int) ==> final(pairs).0@.contains(
                (a, b),
            ),
        forall|k1: int, k2: int|
            0 <= k1 < k2 < final(pairs).0@.len() ==> final(pairs).0@[k1] != final(pairs).0@[k2],
        final(pairs).0@ == collect_spec(views(bodies@)),
{
    let ghost bs = views(bodies@);
    let n = bodies.len();
    pairs.0 = Vec::new();
    proof {
        assert(pairs.0@ + collect_from(bs, 0) =~= collect_spec(bs));
    }
    let mut a: usize = 0;
    while a < n
        invariant
            n == bodies@.len() == bs.len(),
            a <= n,
            pairs.0@ + collect_from(bs, a as int) == collect_spec(bs),
            forall|k: int|
                0 <= k < pairs.0@.len() ==> pair_candidate(
                    bs,
                    (#[trigger] pairs.0@[k]).0 as int,
                    pairs.0@[k].1 as int,
                ),
            forall|x: usize, y: usize|
                pair_candidate(bs, x as int, y as int) && x < a ==> pairs.0@.contains((x, y)),
            forall|k: int|
                0 <= k < pairs.0@.len() ==> (#[trigger] pairs.0@[k]).0 < a,
            forall|k1: int, k2: int|
                0 <= k1 < k2 < pairs.0@.len() ==> (#[trigger] pairs.0@[k1]).0 < (
                #[trigger] pairs.0@[k2]).0 || (pairs.0@[k1].0 == pairs.0@[k2].0 && pairs.0@[k1].1
                    < pairs.0@[k2].1),
        decreases n - a,
    {
        proof {
            assert(pairs.0@ + collect_row(bs, a as int, 0) + collect_from(bs, a as int + 1)
                =~= pairs.0@ + collect_from(bs, a as int));
        }
        let mut b: usize = 0;
        while b < a
            invariant
                a < n,
                b <= a,
                pairs.0@ + collect_row(bs, a as int, b as int) + collect_from(bs, a as int + 1)
                    == collect_spec(bs),
                forall|k: int|
                    0 <= k < pairs.0@.len() ==> pair_candidate(
                        bs,
                        (#[trigger] pairs.0@[k]).0 as int,
                        pairs.0@[k].1 as int,
                    ),
                forall|x: usize, y: usize|
                    pair_candidate(bs, x as int, y as int) && (x < a || (x == a && y < b))
                        ==> pairs.0@.contains((x, y)),
                forall|k: int|
                    0 <= k < pairs.0@.len() ==> (#[trigger] pairs.0@[k]).0 < a || (pairs.0@[k].0
                        == a && pairs.0@[k].1 < b),
                forall|k1: int, k2: int|
                    0 <= k1 < k2 < pairs.0@.len() ==> (#[trigger] pairs.0@[k1]).0 < (
                    #[trigger] pairs.0@[k2]).0 || (pairs.0@[k1].0 == pairs.0@[k2].0
                        && pairs.0@[k1].1 < pairs.0@[k2].1),
            decreases a - b,
        {
            let body_a = bodies[a];
            let body_b = bodies[b];
            if body_a.mass.is_some() && body_b.mass.is_some() && body_a.bounds.intersects(
                &body_b.bounds,
            ) {
                proof {
                    assert(pair_candidate(bs, a as int, b as int));
                }
                let ghost before = pairs.0@;
                pairs.0.push((a, b));
                proof {
                    assert(pairs.0@ == before.push((a, b)));
                    assert(pairs.0@ =~= before + seq![(a, b)]);
                    assert(pairs.0@ + collect_row(bs, a as int, b as int + 1) + collect_from(
                        bs,
                        a as int + 1,
                    ) =~= before + collect_row(bs, a as int, b as int) + collect_from(
                        bs,
                        a as int + 1,
                    ));
                    assert forall|x: usize, y: usize|
                        pair_candidate(bs, x as int, y as int) && (x < a || (x == a && y < b + 1))
                            implies pairs.0@.contains((x, y)) by {
                        if x == a && y == b {
                            assert(pairs.0@[before.len() as int] == (a, b));
                        } else {
                            assert(before.contains((x, y)));
                            let idx = choose|idx: int|
                                0 <= idx < before.len() && before[idx] == (x, y);
                            assert(pairs.0@[idx] == (x, y));
                        }
                    }
                }
            } else {
                proof {
                    assert(!pair_candidate(bs, a as int, b as int));
                    assert(collect_row(bs, a as int, b as int) == collect_row(
                        bs,
                        a as int,
                        b as int + 1,
                    ));
                }
            }
            b = b + 1;
        }
        proof {
            assert(collect_row(bs, a as int, a as int) =~= Seq::<(usize, usize)>::empty());
            assert(pairs.0@ + collect_row(bs, a as int, a as int) + collect_from(bs, a as int + 1)
                =~= pairs.0@ + collect_from(bs, a as int + 1));
        }
        a = a + 1;
    }
    proof {
        assert(collect_from(bs, n as int) =~= Seq::<(usize, usize)>::empty());
        assert(pairs.0@ + collect_from(bs, n as int) =~= pairs.0@);
    }
}

} // verus!
