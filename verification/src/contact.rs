//! Narrow-phase contact generation: circle-circle, circle-box and box-box
//! tests, each returning a contact normal and penetration depth, or nothing.
//!
//! All three are pure functions over fixed-point coordinates. The normal is
//! a unit vector scaled by `crate::SCALE`; it points from the first body
//! toward the second for circle pairs and box pairs, and out of the box for
//! circle-box contacts, so that subtracting `normal * penetration` from the
//! first body separates the pair. Quotients are truncated toward zero and
//! lengths are rounded down to the integer square root.
use crate::components::{Vec2, Vec2V};
use crate::math::{
    abs_i, div_t, isqrt_i, lemma_div_t_le, lemma_div_t_mag, lemma_isqrt_bounds,
    lemma_isqrt_component, sign_s,
};
use crate::math::{div_i128, div_i64, isqrt_u128, mul_wide, narrow};
use vstd::prelude::*;

verus! {

/// A transient contact: unit normal (scaled by `crate::SCALE`) and
/// penetration depth (positive means overlapping).
#[derive(Clone, Copy, Debug)]
pub struct Contact {
    pub normal: Vec2,
    pub penetration: i64,
}

/// Ghost mirror of [`Contact`].
pub ghost struct ContactV {
    pub normal: Vec2V,
    pub penetration: int,
}

impl View for Contact {
    type V = ContactV;

    open spec fn view(&self) -> ContactV {
        ContactV { normal: self.normal@, penetration: self.penetration as int }
    }
}

/// The view of an optional contact.
pub open spec fn contact_opt_view(r: Option<Contact>) -> Option<ContactV> {
    match r {
        Some(c) => Some(c@),
        None => None,
    }
}

/// The difference of two positions stays within 64-bit magnitudes.
pub open spec fn fits_delta(a: Vec2V, b: Vec2V) -> bool {
    abs_i(b.x - a.x) <= i64::MAX && abs_i(b.y - a.y) <= i64::MAX
}

/// Circle-circle contact: overlap exactly when the squared centre distance
/// is strictly below the squared combined radius; the normal points from
/// the first centre toward the second.
pub open spec fn ball_ball_spec(pos_a: Vec2V, radius_a: int, pos_b: Vec2V, radius_b: int) -> Option<
    ContactV,
> {
    let ab = pos_b.minus(pos_a);
    let combined = radius_a + radius_b;
    if ab.len_sq() < combined * combined {
        let dist = isqrt_i(ab.len_sq());
        Some(
            ContactV {
                normal: Vec2V {
                    x: div_t(ab.x * crate::SCALE, dist),
                    y: div_t(ab.y * crate::SCALE, dist),
                },
                penetration: combined - dist,
            },
        )
    } else {
        None
    }
}

/// Circle-box contact, in the box's frame. `corner` is the componentwise
/// distance from the circle's centre to the box's nearest corner; past a
/// corner the normal runs from the corner to the centre, otherwise it is
/// the axis of the nearest edge, signed so that it pushes the circle out.
pub open spec fn ball_box_spec(pos_a: Vec2V, radius_a: int, pos_b: Vec2V, size_b: Vec2V) -> Option<
    ContactV,
> {
    let d = pos_a.minus(pos_b);
    let cx = abs_i(d.x) - div_t(size_b.x, 2);
    let cy = abs_i(d.y) - div_t(size_b.y, 2);
    if cx > radius_a || cy > radius_a {
        None
    } else if cx > 0 && cy > 0 {
        let c_sq = cx * cx + cy * cy;
        if c_sq > radius_a * radius_a {
            None
        } else {
            let dist = isqrt_i(c_sq);
            Some(
                ContactV {
                    normal: Vec2V {
                        x: -sign_s(d.x) * div_t(cx * crate::SCALE, dist),
                        y: -sign_s(d.y) * div_t(cy * crate::SCALE, dist),
                    },
                    penetration: radius_a - dist,
                },
            )
        }
    } else if cx > cy {
        Some(
            ContactV {
                normal: Vec2V { x: -sign_s(d.x) * crate::SCALE, y: 0 },
                penetration: radius_a - cx,
            },
        )
    } else {
        Some(
            ContactV {
                normal: Vec2V { x: 0, y: -sign_s(d.y) * crate::SCALE },
                penetration: radius_a - cy,
            },
        )
    }
}

/// Box-box contact: overlap per axis, separation along the axis of least
/// overlap (ties broken toward the y axis), normal signed by the centre
/// offset from the first box to the second.
pub open spec fn box_box_spec(pos_a: Vec2V, size_a: Vec2V, pos_b: Vec2V, size_b: Vec2V) -> Option<
    ContactV,
> {
    let ab = pos_b.minus(pos_a);
    let ox = div_t(size_a.x, 2) + div_t(size_b.x, 2) - abs_i(ab.x);
    let oy = div_t(size_a.y, 2) + div_t(size_b.y, 2) - abs_i(ab.y);
    if ox < 0 || oy < 0 {
        None
    } else if ox < oy {
        Some(ContactV { normal: Vec2V { x: sign_s(ab.x) * crate::SCALE, y: 0 }, penetration: ox })
    } else {
        Some(ContactV { normal: Vec2V { x: 0, y: sign_s(ab.y) * crate::SCALE }, penetration: oy })
    }
}

/// Every contact the three tests produce is well formed: the normal's
/// components are at most one unit (`crate::SCALE`) in magnitude and the
/// penetration is non-negative, bounded by the shapes' combined extent.
pub open spec fn contact_wf(c: ContactV, extent: int) -> bool {
    abs_i(c.normal.x) <= crate::SCALE && abs_i(c.normal.y) <= crate::SCALE && 0 <= c.penetration
        <= extent
}

/// Circle-circle contact test.
pub fn ball_ball(pos_a: Vec2, radius_a: i64, pos_b: Vec2, radius_b: i64) -> (r: Option<Contact>)
    requires
        0 < radius_a,
        0 < radius_b,
        radius_a + radius_b <= i64::MAX,
        fits_delta(pos_a@, pos_b@),
        pos_a@ != pos_b@,
    ensures
        contact_opt_view(r) == ball_ball_spec(pos_a@, radius_a as int, pos_b@, radius_b as int),
{
    let abx: i64 = pos_b.x - pos_a.x;
    let aby: i64 = pos_b.y - pos_a.y;
    let combined: i64 = radius_a + radius_b;
    proof {
        assert(abx * abx >= 0 && abx * abx <= 0x3fff_ffff_ffff_ffff_0000_0000_0000_0001int)
            by (nonlinear_arith)
            requires
                -(i64::MAX as int) <= abx <= i64::MAX as int,
        ;
        assert(aby * aby >= 0 && aby * aby <= 0x3fff_ffff_ffff_ffff_0000_0000_0000_0001int)
            by (nonlinear_arith)
            requires
                -(i64::MAX as int) <= aby <= i64::MAX as int,
        ;
    }
    let ab_sqr: i128 = mul_wide(abx, abx) + mul_wide(aby, aby);
    let rr: i128 = mul_wide(combined, combined);
    if ab_sqr < rr {
        proof {
            assert(abx != 0 || aby != 0);
            assert(abx * abx + aby * aby >= 1) by (nonlinear_arith)
                requires
                    abx != 0 || aby != 0,
            ;
        }
        let dist_u: u64 = isqrt_u128(ab_sqr as u128);
        proof {
            let n = ab_sqr as int;
            let dist = isqrt_i(n);
            lemma_isqrt_bounds(n as nat);
            assert(dist < combined) by (nonlinear_arith)
                requires
                    dist >= 0,
                    combined > 0,
                    dist * dist <= n,
                    n < combined * combined,
            ;
            assert(dist >= 1) by (nonlinear_arith)
                requires
                    dist >= 0,
                    n >= 1,
                    n < (dist + 1) * (dist + 1),
            ;
            lemma_isqrt_component(abx as int, aby * aby);
            lemma_isqrt_component(aby as int, abx * abx);
            assert(abx * abx + aby * aby == aby * aby + abx * abx);
            assert(abs_i(abx * crate::SCALE) <= crate::SCALE * dist) by (nonlinear_arith)
                requires
                    abs_i(abx as int) <= dist,
            ;
            assert(abs_i(aby * crate::SCALE) <= crate::SCALE * dist) by (nonlinear_arith)
                requires
                    abs_i(aby as int) <= dist,
            ;
            lemma_div_t_mag(abx * crate::SCALE, dist, crate::SCALE as int);
            lemma_div_t_mag(aby * crate::SCALE, dist, crate::SCALE as int);
        }
        let dist: i64 = dist_u as i64;
        let pen: i64 = combined - dist;
        let nx: i64 = narrow(div_i128(mul_wide(abx, crate::SCALE), dist as i128));
        let ny: i64 = narrow(div_i128(mul_wide(aby, crate::SCALE), dist as i128));
        Some(Contact { normal: Vec2 { x: nx, y: ny }, penetration: pen })
    } else {
        None
    }
}

/// Circle-box contact test: the circle first, then the box and its size.
pub fn ball_box(pos_a: Vec2, radius_a: i64, pos_b: Vec2, size_b: Vec2) -> (r: Option<Contact>)
    requires
        0 < radius_a,
        0 < size_b.x,
        0 < size_b.y,
        radius_a + size_b.x <= i64::MAX,
        radius_a + size_b.y <= i64::MAX,
        fits_delta(pos_b@, pos_a@),
    ensures
        contact_opt_view(r) == ball_box_spec(pos_a@, radius_a as int, pos_b@, size_b@),
{
    let dx: i64 = pos_a.x - pos_b.x;
    let dy: i64 = pos_a.y - pos_b.y;
    let ax: i64 = if dx >= 0 {
        dx
    } else {
        -dx
    };
    let ay: i64 = if dy >= 0 {
        dy
    } else {
        -dy
    };
    let hx: i64 = div_i64(size_b.x, 2);
    let hy: i64 = div_i64(size_b.y, 2);
    proof {
        crate::math::lemma_div_t_le(size_b.x as int, 2);
        crate::math::lemma_div_t_le(size_b.y as int, 2);
    }
    let cx: i64 = ax - hx;
    let cy: i64 = ay - hy;
    if cx > radius_a || cy > radius_a {
        return None;
    }
    if cx > 0 && cy > 0 {
        proof {
            assert(cx * cx >= 0 && cx * cx <= 0x3fff_ffff_ffff_ffff_0000_0000_0000_0001int)
                by (nonlinear_arith)
                requires
                    -(i64::MAX as int) <= cx <= i64::MAX as int,
            ;
            assert(cy * cy >= 0 && cy * cy <= 0x3fff_ffff_ffff_ffff_0000_0000_0000_0001int)
                by (nonlinear_arith)
                requires
                    -(i64::MAX as int) <= cy <= i64::MAX as int,
            ;
            assert(cx * cx + cy * cy >= 1) by (nonlinear_arith)
                requires
                    cx >= 1,
            ;
        }
        let c_sq: i128 = mul_wide(cx, cx) + mul_wide(cy, cy);
        let rr: i128 = mul_wide(radius_a, radius_a);
        if c_sq > rr {
            return None;
        }
        let dist_u: u64 = isqrt_u128(c_sq as u128);
        proof {
            let n = c_sq as int;
            let dist = isqrt_i(n);
            lemma_isqrt_bounds(n as nat);
            assert(dist <= radius_a) by (nonlinear_arith)
                requires
                    dist >= 0,
                    radius_a > 0,
                    dist * dist <= n,
                    n <= radius_a * radius_a,
            ;
            assert(dist >= 1) by (nonlinear_arith)
                requires
                    dist >= 0,
                    n >= 1,
                    n < (dist + 1) * (dist + 1),
            ;
            lemma_isqrt_component(cx as int, cy * cy);
            lemma_isqrt_component(cy as int, cx * cx);
            assert(cx * cx + cy * cy == cy * cy + cx * cx);
            assert(abs_i(cx * crate::SCALE) <= crate::SCALE * dist) by (nonlinear_arith)
                requires
                    abs_i(cx as int) <= dist,
            ;
            assert(abs_i(cy * crate::SCALE) <= crate::SCALE * dist) by (nonlinear_arith)
                requires
                    abs_i(cy as int) <= dist,
            ;
            lemma_div_t_mag(cx * crate::SCALE, dist, crate::SCALE as int);
            lemma_div_t_mag(cy * crate::SCALE, dist, crate::SCALE as int);
        }
        let dist: i64 = dist_u as i64;
        let pen: i64 = radius_a - dist;
        let qx: i64 = narrow(div_i128(mul_wide(cx, crate::SCALE), dist as i128));
        let qy: i64 = narrow(div_i128(mul_wide(cy, crate::SCALE), dist as i128));
        let nx: i64 = if dx >= 0 {
            -qx
        } else {
            qx
        };
        let ny: i64 = if dy >= 0 {
            -qy
        } else {
            qy
        };
        proof {
            assert(nx as int == -sign_s(dx as int) * div_t(cx * crate::SCALE, dist_u as int))
                by (nonlinear_arith)
                requires
                    (dx >= 0 ==> sign_s(dx as int) == 1 && nx == -qx) && (dx < 0 ==> sign_s(
                        dx as int,
                    ) == -1 && nx == qx) && qx == div_t(cx * crate::SCALE, dist_u as int),
            ;
            assert(ny as int == -sign_s(dy as int) * div_t(cy * crate::SCALE, dist_u as int))
                by (nonlinear_arith)
                requires
                    (dy >= 0 ==> sign_s(dy as int) == 1 && ny == -qy) && (dy < 0 ==> sign_s(
                        dy as int,
                    ) == -1 && ny == qy) && qy == div_t(cy * crate::SCALE, dist_u as int),
            ;
        }
        Some(Contact { normal: Vec2 { x: nx, y: ny }, penetration: pen })
    } else if cx > cy {
        let nx: i64 = if dx >= 0 {
            -crate::SCALE
        } else {
            crate::SCALE
        };
        Some(Contact { normal: Vec2 { x: nx, y: 0 }, penetration: radius_a - cx })
    } else {
        let ny: i64 = if dy >= 0 {
            -crate::SCALE
        } else {
            crate::SCALE
        };
        Some(Contact { normal: Vec2 { x: 0, y: ny }, penetration: radius_a - cy })
    }
}

/// Box-box contact test.
pub fn box_box(pos_a: Vec2, size_a: Vec2, pos_b: Vec2, size_b: Vec2) -> (r: Option<Contact>)
    requires
        0 < size_a.x,
        0 < size_a.y,
        0 < size_b.x,
        0 < size_b.y,
        fits_delta(pos_a@, pos_b@),
    ensures
        contact_opt_view(r) == box_box_spec(pos_a@, size_a@, pos_b@, size_b@),
{
    let abx: i64 = pos_b.x - pos_a.x;
    let aby: i64 = pos_b.y - pos_a.y;
    let ax: i64 = if abx >= 0 {
        abx
    } else {
        -abx
    };
    let ay: i64 = if aby >= 0 {
        aby
    } else {
        -aby
    };
    let hax: i64 = div_i64(size_a.x, 2);
    let hay: i64 = div_i64(size_a.y, 2);
    let hbx: i64 = div_i64(size_b.x, 2);
    let hby: i64 = div_i64(size_b.y, 2);
    proof {
        crate::math::lemma_div_t_le(size_a.x as int, 2);
        crate::math::lemma_div_t_le(size_a.y as int, 2);
        crate::math::lemma_div_t_le(size_b.x as int, 2);
        crate::math::lemma_div_t_le(size_b.y as int, 2);
        crate::math::lemma_div_t_ordered(size_a.x as int, i64::MAX as int, 2);
        crate::math::lemma_div_t_ordered(size_a.y as int, i64::MAX as int, 2);
        crate::math::lemma_div_t_ordered(size_b.x as int, i64::MAX as int, 2);
        crate::math::lemma_div_t_ordered(size_b.y as int, i64::MAX as int, 2);
        assert(div_t(i64::MAX as int, 2) == 0x3fff_ffff_ffff_ffffint);
    }
    let ox: i64 = hax + hbx - ax;
    let oy: i64 = hay + hby - ay;
    if ox < 0 || oy < 0 {
        None
    } else if ox < oy {
        let nx: i64 = if abx >= 0 {
            crate::SCALE
        } else {
            -crate::SCALE
        };
        Some(Contact { normal: Vec2 { x: nx, y: 0 }, penetration: ox })
    } else {
        let ny: i64 = if aby >= 0 {
            crate::SCALE
        } else {
            -crate::SCALE
        };
        Some(Contact { normal: Vec2 { x: 0, y: ny }, penetration: oy })
    }
}

/// For circles, a contact exists exactly when the squared centre distance
/// is strictly less than the squared combined radius — touching circles
/// (equality) yield no contact — and its penetration is then exactly the
/// combined radius minus the centre distance.
pub proof fn lemma_ball_ball_exact(pos_a: Vec2V, radius_a: int, pos_b: Vec2V, radius_b: int)
    ensures
        ball_ball_spec(pos_a, radius_a, pos_b, radius_b) is Some <==> pos_b.minus(pos_a).len_sq() < (
        radius_a + radius_b) * (radius_a + radius_b),
        ball_ball_spec(pos_a, radius_a, pos_b, radius_b) is Some ==> ball_ball_spec(
            pos_a,
            radius_a,
            pos_b,
            radius_b,
        )->Some_0.penetration == radius_a + radius_b - isqrt_i(pos_b.minus(pos_a).len_sq()),
{
}

/// Swapping the two boxes yields the same overlap decision, a penetration
/// equal in magnitude, and — whenever the centres differ on both axes —
/// a normal flipped in sign.
pub proof fn lemma_box_box_symmetric(pos_a: Vec2V, size_a: Vec2V, pos_b: Vec2V, size_b: Vec2V)
    ensures
        box_box_spec(pos_a, size_a, pos_b, size_b) is Some <==> box_box_spec(
            pos_b,
            size_b,
            pos_a,
            size_a,
        ) is Some,
        box_box_spec(pos_a, size_a, pos_b, size_b) is Some ==> box_box_spec(
            pos_b,
            size_b,
            pos_a,
            size_a,
        )->Some_0.penetration == box_box_spec(pos_a, size_a, pos_b, size_b)->Some_0.penetration,
        (box_box_spec(pos_a, size_a, pos_b, size_b) is Some && pos_a.x != pos_b.x && pos_a.y
            != pos_b.y) ==> box_box_spec(pos_b, size_b, pos_a, size_a)->Some_0.normal
            == box_box_spec(pos_a, size_a, pos_b, size_b)->Some_0.normal.neg(),
        box_box_spec(pos_a, size_a, pos_b, size_b) is Some ==> {
            let na = box_box_spec(pos_a, size_a, pos_b, size_b)->Some_0.normal;
            let nb = box_box_spec(pos_b, size_b, pos_a, size_a)->Some_0.normal;
            nb == na.neg() || nb == na
        },
{
    let ab = pos_b.minus(pos_a);
    let ba = pos_a.minus(pos_b);
    assert(abs_i(ab.x) == abs_i(ba.x));
    assert(abs_i(ab.y) == abs_i(ba.y));
    if pos_a.x != pos_b.x {
        assert(sign_s(ba.x) * crate::SCALE == -(sign_s(ab.x) * crate::SCALE)) by (nonlinear_arith)
            requires
                sign_s(ba.x) == -sign_s(ab.x),
        ;
    }
    if pos_a.y != pos_b.y {
        assert(sign_s(ba.y) * crate::SCALE == -(sign_s(ab.y) * crate::SCALE)) by (nonlinear_arith)
            requires
                sign_s(ba.y) == -sign_s(ab.y),
        ;
    }
}

/// A circle-circle contact is well formed within the combined radius.
pub proof fn lemma_ball_ball_wf(pos_a: Vec2V, radius_a: int, pos_b: Vec2V, radius_b: int)
    requires
        radius_a > 0,
        radius_b > 0,
        ball_ball_spec(pos_a, radius_a, pos_b, radius_b) is Some,
    ensures
        contact_wf(ball_ball_spec(pos_a, radius_a, pos_b, radius_b)->Some_0, radius_a + radius_b),
{
    let ab = pos_b.minus(pos_a);
    let combined = radius_a + radius_b;
    let n = ab.len_sq();
    assert(ab.x * ab.x >= 0) by (nonlinear_arith);
    assert(ab.y * ab.y >= 0) by (nonlinear_arith);
    let dist = isqrt_i(n);
    lemma_isqrt_bounds(n as nat);
    assert(dist < combined) by (nonlinear_arith)
        requires
            dist >= 0,
            combined > 0,
            dist * dist <= n,
            n < combined * combined,
    ;
    if dist > 0 {
        lemma_isqrt_component(ab.x, ab.y * ab.y);
        lemma_isqrt_component(ab.y, ab.x * ab.x);
        assert(ab.x * ab.x + ab.y * ab.y == ab.y * ab.y + ab.x * ab.x);
        assert(abs_i(ab.x * crate::SCALE) <= crate::SCALE * dist) by (nonlinear_arith)
            requires
                abs_i(ab.x) <= dist,
        ;
        assert(abs_i(ab.y * crate::SCALE) <= crate::SCALE * dist) by (nonlinear_arith)
            requires
                abs_i(ab.y) <= dist,
        ;
        lemma_div_t_mag(ab.x * crate::SCALE, dist, crate::SCALE as int);
        lemma_div_t_mag(ab.y * crate::SCALE, dist, crate::SCALE as int);
    }
}

/// A circle-box contact is well formed within the radius plus half extents.
pub proof fn lemma_ball_box_wf(pos_a: Vec2V, radius_a: int, pos_b: Vec2V, size_b: Vec2V)
    requires
        radius_a > 0,
        size_b.x >= 0,
        size_b.y >= 0,
        ball_box_spec(pos_a, radius_a, pos_b, size_b) is Some,
    ensures
        contact_wf(
            ball_box_spec(pos_a, radius_a, pos_b, size_b)->Some_0,
            radius_a + div_t(size_b.x, 2) + div_t(size_b.y, 2),
        ),
{
    let d = pos_a.minus(pos_b);
    let hx = div_t(size_b.x, 2);
    let hy = div_t(size_b.y, 2);
    let cx = abs_i(d.x) - hx;
    let cy = abs_i(d.y) - hy;
    lemma_div_t_le(size_b.x, 2);
    lemma_div_t_le(size_b.y, 2);
    if cx > 0 && cy > 0 && !(cx > radius_a || cy > radius_a) {
        let c_sq = cx * cx + cy * cy;
        if c_sq <= radius_a * radius_a {
            let dist = isqrt_i(c_sq);
            assert(c_sq > 0) by (nonlinear_arith)
                requires
                    c_sq == cx * cx + cy * cy,
                    cx > 0 && cy > 0,
            ;
            lemma_isqrt_bounds(c_sq as nat);
            assert(dist >= 1) by (nonlinear_arith)
                requires
                    dist >= 0,
                    c_sq > 0,
                    c_sq < (dist + 1) * (dist + 1),
            ;
            assert(dist <= radius_a) by (nonlinear_arith)
                requires
                    dist >= 0,
                    radius_a > 0,
                    dist * dist <= c_sq,
                    c_sq <= radius_a * radius_a,
            ;
            assert(cy * cy >= 0) by (nonlinear_arith);
            assert(cx * cx >= 0) by (nonlinear_arith);
            lemma_isqrt_component(cx, cy * cy);
            lemma_isqrt_component(cy, cx * cx);
            assert(cx * cx + cy * cy == cy * cy + cx * cx);
            assert(abs_i(cx * crate::SCALE) <= crate::SCALE * dist) by (nonlinear_arith)
                requires
                    abs_i(cx) <= dist,
            ;
            assert(abs_i(cy * crate::SCALE) <= crate::SCALE * dist) by (nonlinear_arith)
                requires
                    abs_i(cy) <= dist,
            ;
            lemma_div_t_mag(cx * crate::SCALE, dist, crate::SCALE as int);
            lemma_div_t_mag(cy * crate::SCALE, dist, crate::SCALE as int);
            let tx = div_t(cx * crate::SCALE, dist);
            let ty = div_t(cy * crate::SCALE, dist);
            let sx = sign_s(d.x);
            let sy = sign_s(d.y);
            assert(-(crate::SCALE as int) <= -sx * tx <= crate::SCALE as int) by (nonlinear_arith)
                requires
                    sx == 1 || sx == -1,
                    -(crate::SCALE as int) <= tx <= crate::SCALE as int,
            ;
            assert(-(crate::SCALE as int) <= -sy * ty <= crate::SCALE as int) by (nonlinear_arith)
                requires
                    sy == 1 || sy == -1,
                    -(crate::SCALE as int) <= ty <= crate::SCALE as int,
            ;
        }
    }
}

/// A box-box contact is well formed within the combined half extents.
pub proof fn lemma_box_box_wf(pos_a: Vec2V, size_a: Vec2V, pos_b: Vec2V, size_b: Vec2V)
    requires
        size_a.x >= 0,
        size_a.y >= 0,
        size_b.x >= 0,
        size_b.y >= 0,
        box_box_spec(pos_a, size_a, pos_b, size_b) is Some,
    ensures
        contact_wf(
            box_box_spec(pos_a, size_a, pos_b, size_b)->Some_0,
            div_t(size_a.x, 2) + div_t(size_b.x, 2) + div_t(size_a.y, 2) + div_t(size_b.y, 2),
        ),
{
    lemma_div_t_le(size_a.x, 2);
    lemma_div_t_le(size_a.y, 2);
    lemma_div_t_le(size_b.x, 2);
    lemma_div_t_le(size_b.y, 2);
}

} // verus!
