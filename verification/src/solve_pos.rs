//! The position-solve stages of a sub-step: mass-weighted projection for
//! dynamic-dynamic candidate pairs, and full-penetration projection of
//! dynamic bodies out of static ones.
use crate::components::{Mass, Pos, Vec2, Vec2V};
use crate::contact::{
    ball_ball, ball_box, box_box, ball_ball_spec, ball_box_spec, box_box_spec, contact_opt_view,
    contact_wf, fits_delta, lemma_ball_ball_wf, lemma_ball_box_wf, lemma_box_box_wf, Contact,
    ContactV,
};
use crate::math::{abs_i, div_t, in_i64};
use crate::math::{
    div_i128, lemma_div_t_abs, lemma_div_t_le, lemma_div_t_mag, lemma_div_t_ordered, mul_i128,
    mul_wide, narrow,
};
use crate::resources::{CollisionPairs, Contacts, StaticContacts};
use crate::world::{views, same_constitution, Body, BodyV, ShapeV, body_wf, world_wf};
use vstd::prelude::*;

verus! {

/// Which narrow-phase test a solver pass runs; a pair whose shapes do not
/// match the pass's kind is skipped by it.
#[derive(Clone, Copy, PartialEq, Eq, Structural, Debug)]
pub enum ContactKind {
    CircleCircle,
    CircleRect,
    RectRect,
}

/// A recorded contact: the two identities and the contact normal.
pub ghost struct ContactRec {
    pub a: int,
    pub b: int,
    pub normal: Vec2V,
}

/// The ghost image of a contact record list.
pub open spec fn recs_view(v: Seq<(usize, usize, Vec2)>) -> Seq<ContactRec> {
    v.map_values(|t: (usize, usize, Vec2)| ContactRec { a: t.0 as int, b: t.1 as int, normal: t.2@ })
}

/// The contact a pass's narrow phase yields for bodies `a` and `b`:
/// nothing unless both shapes match the pass's kind.
pub open spec fn narrow_phase(a: BodyV, b: BodyV, kind: ContactKind) -> Option<ContactV> {
    match kind {
        ContactKind::CircleCircle => match (a.shape, b.shape) {
            (ShapeV::Circle { radius: ra }, ShapeV::Circle { radius: rb }) => ball_ball_spec(
                a.pos,
                ra,
                b.pos,
                rb,
            ),
            _ => None,
        },
        ContactKind::CircleRect => match (a.shape, b.shape) {
            (ShapeV::Circle { radius: ra }, ShapeV::Rect { size: sb }) => ball_box_spec(
                a.pos,
                ra,
                b.pos,
                sb,
            ),
            _ => None,
        },
        ContactKind::RectRect => match (a.shape, b.shape) {
            (ShapeV::Rect { size: sa }, ShapeV::Rect { size: sb }) => box_box_spec(
                a.pos,
                sa,
                b.pos,
                sb,
            ),
            _ => None,
        },
    }
}

/// Every narrow-phase contact between well-formed bodies is well formed
/// within twice the extent limit.
pub proof fn lemma_narrow_phase_wf(a: BodyV, b: BodyV, kind: ContactKind)
    requires
        body_wf(a),
        body_wf(b),
        narrow_phase(a, b, kind) is Some,
    ensures
        contact_wf(narrow_phase(a, b, kind)->Some_0, 2 * crate::EXTENT_LIMIT),
{
    match kind {
        ContactKind::CircleCircle => {
            if a.shape is Circle && b.shape is Circle {
                lemma_ball_ball_wf(a.pos, a.shape->radius, b.pos, b.shape->radius);
            }
        },
        ContactKind::CircleRect => {
            if a.shape is Circle && b.shape is Rect {
                lemma_ball_box_wf(a.pos, a.shape->radius, b.pos, b.shape->size);
                lemma_div_t_le(b.shape->size.x, 2);
                lemma_div_t_le(b.shape->size.y, 2);
                lemma_div_t_ordered(b.shape->size.x, crate::EXTENT_LIMIT as int, 2);
                lemma_div_t_ordered(b.shape->size.y, crate::EXTENT_LIMIT as int, 2);
            }
        },
        ContactKind::RectRect => {
            if a.shape is Rect && b.shape is Rect {
                lemma_box_box_wf(a.pos, a.shape->size, b.pos, b.shape->size);
                lemma_div_t_ordered(a.shape->size.x, crate::EXTENT_LIMIT as int, 2);
                lemma_div_t_ordered(a.shape->size.y, crate::EXTENT_LIMIT as int, 2);
                lemma_div_t_ordered(b.shape->size.x, crate::EXTENT_LIMIT as int, 2);
                lemma_div_t_ordered(b.shape->size.y, crate::EXTENT_LIMIT as int, 2);
            }
        },
    }
}

/// Runs the narrow-phase test of `kind` on two bodies.
pub fn run_narrow_phase(a: &Body, b: &Body, kind: ContactKind) -> (r: Option<Contact>)
    requires
        body_wf(a@),
        body_wf(b@),
        fits_delta(a@.pos, b@.pos),
        fits_delta(b@.pos, a@.pos),
        kind == ContactKind::CircleCircle && a@.shape is Circle && b@.shape is Circle ==> a@.pos
            != b@.pos,
    ensures
        contact_opt_view(r) == narrow_phase(a@, b@, kind),
{
    match kind {
        ContactKind::CircleCircle => match (a.shape, b.shape) {
            (crate::world::Shape::Circle(ca), crate::world::Shape::Circle(cb)) => ball_ball(
                a.pos.0,
                ca.radius,
                b.pos.0,
                cb.radius,
            ),
            _ => None,
        },
        ContactKind::CircleRect => match (a.shape, b.shape) {
            (crate::world::Shape::Circle(ca), crate::world::Shape::Rect(bb)) => ball_box(
                a.pos.0,
                ca.radius,
                b.pos.0,
                bb.size,
            ),
            _ => None,
        },
        ContactKind::RectRect => match (a.shape, b.shape) {
            (crate::world::Shape::Rect(ba), crate::world::Shape::Rect(bb)) => box_box(
                a.pos.0,
                ba.size,
                b.pos.0,
                bb.size,
            ),
            _ => None,
        },
    }
}

/// The mass-weighted share of a correction `amount` along normal `n` that
/// one body of a pair receives: scaled by the other body's fraction of the
/// pair's total mass, and divided by `crate::SCALE` because the normal is
/// a scaled unit vector. Quotients truncate toward zero.
pub open spec fn weighted_share(n: Vec2V, amount: int, m_other: int, m_sum: int) -> Vec2V {
    Vec2V {
        x: div_t(n.x * amount * m_other, m_sum * crate::SCALE),
        y: div_t(n.y * amount * m_other, m_sum * crate::SCALE),
    }
}

/// The full correction `amount` along normal `n`, for dynamic-static
/// contacts where the static side has infinite mass.
pub open spec fn full_share(n: Vec2V, amount: int) -> Vec2V {
    Vec2V { x: div_t(n.x * amount, crate::SCALE as int), y: div_t(n.y * amount, crate::SCALE as int) }
}

/// A share never exceeds the corrected amount in magnitude.
pub proof fn lemma_weighted_share_bound(n: Vec2V, amount: int, m_other: int, m_sum: int)
    requires
        abs_i(n.x) <= crate::SCALE,
        abs_i(n.y) <= crate::SCALE,
        1 <= m_other <= m_sum,
    ensures
        abs_i(weighted_share(n, amount, m_other, m_sum).x) <= abs_i(amount),
        abs_i(weighted_share(n, amount, m_other, m_sum).y) <= abs_i(amount),
{
    let d = m_sum * crate::SCALE;
    assert(d >= crate::SCALE) by (nonlinear_arith)
        requires
            m_sum >= 1,
            crate::SCALE == 0x0f_4240,
            d == m_sum * crate::SCALE,
    ;
    assert(abs_i(n.x * amount * m_other) <= abs_i(amount) * d) by (nonlinear_arith)
        requires
            abs_i(n.x) <= crate::SCALE,
            abs_i(n.x) == if n.x >= 0 { n.x } else { -n.x },
            abs_i(amount) == if amount >= 0 { amount } else { -amount },
            abs_i(n.x * amount * m_other) == if n.x * amount * m_other >= 0 { n.x * amount * m_other } else { -(n.x * amount * m_other) },
            1 <= m_other <= m_sum,
            crate::SCALE > 0,
            d == m_sum * crate::SCALE,
    ;
    assert(abs_i(n.y * amount * m_other) <= abs_i(amount) * d) by (nonlinear_arith)
        requires
            abs_i(n.y) <= crate::SCALE,
            abs_i(n.y) == if n.y >= 0 { n.y } else { -n.y },
            abs_i(amount) == if amount >= 0 { amount } else { -amount },
            abs_i(n.y * amount * m_other) == if n.y * amount * m_other >= 0 { n.y * amount * m_other } else { -(n.y * amount * m_other) },
            1 <= m_other <= m_sum,
            crate::SCALE > 0,
            d == m_sum * crate::SCALE,
    ;
    lemma_div_t_mag(n.x * amount * m_other, d, abs_i(amount));
    lemma_div_t_mag(n.y * amount * m_other, d, abs_i(amount));
}

/// A full share never exceeds the corrected amount in magnitude.
pub proof fn lemma_full_share_bound(n: Vec2V, amount: int)
    requires
        abs_i(n.x) <= crate::SCALE,
        abs_i(n.y) <= crate::SCALE,
    ensures
        abs_i(full_share(n, amount).x) <= abs_i(amount),
        abs_i(full_share(n, amount).y) <= abs_i(amount),
{
    assert(abs_i(n.x * amount) <= abs_i(amount) * crate::SCALE) by (nonlinear_arith)
        requires
            abs_i(n.x) <= crate::SCALE,
            abs_i(n.x) == if n.x >= 0 { n.x } else { -n.x },
            abs_i(amount) == if amount >= 0 { amount } else { -amount },
            abs_i(n.x * amount) == if n.x * amount >= 0 { n.x * amount } else { -(n.x * amount) },
            crate::SCALE > 0,
    ;
    assert(abs_i(n.y * amount) <= abs_i(amount) * crate::SCALE) by (nonlinear_arith)
        requires
            abs_i(n.y) <= crate::SCALE,
            abs_i(n.y) == if n.y >= 0 { n.y } else { -n.y },
            abs_i(amount) == if amount >= 0 { amount } else { -amount },
            abs_i(n.y * amount) == if n.y * amount >= 0 { n.y * amount } else { -(n.y * amount) },
            crate::SCALE > 0,
    ;
    lemma_div_t_mag(n.x * amount, crate::SCALE as int, abs_i(amount));
    lemma_div_t_mag(n.y * amount, crate::SCALE as int, abs_i(amount));
}

/// With equal masses the two bodies of a contact receive corrections of
/// equal magnitude; in general each share scales with the other body's
/// mass, so the lighter body always moves at least as far as the heavier.
pub proof fn lemma_weighted_share_split(n: Vec2V, amount: int, m_a: int, m_b: int)
    requires
        1 <= m_a,
        1 <= m_b,
    ensures
        m_a == m_b ==> weighted_share(n, amount, m_b, m_a + m_b) == weighted_share(
            n,
            amount,
            m_a,
            m_a + m_b,
        ),
        m_a <= m_b ==> abs_i(weighted_share(n, amount, m_b, m_a + m_b).x) >= abs_i(
            weighted_share(n, amount, m_a, m_a + m_b).x,
        ),
        m_a <= m_b ==> abs_i(weighted_share(n, amount, m_b, m_a + m_b).y) >= abs_i(
            weighted_share(n, amount, m_a, m_a + m_b).y,
        ),
{
    let d = (m_a + m_b) * crate::SCALE;
    assert(d >= crate::SCALE) by (nonlinear_arith)
        requires
            m_a + m_b >= 1,
            crate::SCALE == 0x0f_4240,
            d == (m_a + m_b) * crate::SCALE,
    ;
    if m_a <= m_b {
        let px = n.x * amount;
        let py = n.y * amount;
        assert(n.x * amount * m_a == px * m_a && n.x * amount * m_b == px * m_b);
        assert(n.y * amount * m_a == py * m_a && n.y * amount * m_b == py * m_b);
        assert(0 <= abs_i(px * m_a) <= abs_i(px * m_b)) by (nonlinear_arith)
            requires
                1 <= m_a <= m_b,
                abs_i(px * m_a) == if px * m_a >= 0 { px * m_a } else { -(px * m_a) },
                abs_i(px * m_b) == if px * m_b >= 0 { px * m_b } else { -(px * m_b) },
        ;
        assert(0 <= abs_i(py * m_a) <= abs_i(py * m_b)) by (nonlinear_arith)
            requires
                1 <= m_a <= m_b,
                abs_i(py * m_a) == if py * m_a >= 0 { py * m_a } else { -(py * m_a) },
                abs_i(py * m_b) == if py * m_b >= 0 { py * m_b } else { -(py * m_b) },
        ;
        lemma_div_t_abs(px * m_a, d);
        lemma_div_t_abs(px * m_b, d);
        lemma_div_t_abs(py * m_a, d);
        lemma_div_t_abs(py * m_b, d);
        lemma_div_t_ordered(abs_i(px * m_a), abs_i(px * m_b), d);
        lemma_div_t_ordered(abs_i(py * m_a), abs_i(py * m_b), d);
    }
}

/// Computes the mass-weighted share of `amount` along `n`.
pub(crate) fn weighted_share_exec(n: Vec2, amount: i64, m_other: i64, m_sum: i64) -> (r: Vec2)
    requires
        abs_i(n@.x) <= crate::SCALE,
        abs_i(n@.y) <= crate::SCALE,
        1 <= m_other <= m_sum,
        m_sum <= 2 * crate::MASS_LIMIT,
        in_i64(weighted_share(n@, amount as int, m_other as int, m_sum as int).x),
        in_i64(weighted_share(n@, amount as int, m_other as int, m_sum as int).y),
    ensures
        r@ == weighted_share(n@, amount as int, m_other as int, m_sum as int),
        abs_i(r@.x) <= abs_i(amount as int),
        abs_i(r@.y) <= abs_i(amount as int),
{
    proof {
        lemma_weighted_share_bound(n@, amount as int, m_other as int, m_sum as int);
        assert(abs_i(n@.x * amount) <= 0x8000_0000_0000_0000int * 0x0f_4240int) by (nonlinear_arith)
            requires
                abs_i(n@.x) <= 0x0f_4240int,
                abs_i(n@.x) == if n@.x >= 0 { n@.x } else { -n@.x },
                abs_i(n@.x * amount) == if n@.x * amount >= 0 { n@.x * amount } else { -(n@.x * amount) },
                -0x8000_0000_0000_0000int <= amount as int <= 0x7fff_ffff_ffff_ffffint,
        ;
        assert(abs_i(n@.y * amount) <= 0x8000_0000_0000_0000int * 0x0f_4240int) by (nonlinear_arith)
            requires
                abs_i(n@.y) <= 0x0f_4240int,
                abs_i(n@.y) == if n@.y >= 0 { n@.y } else { -n@.y },
                abs_i(n@.y * amount) == if n@.y * amount >= 0 { n@.y * amount } else { -(n@.y * amount) },
                -0x8000_0000_0000_0000int <= amount as int <= 0x7fff_ffff_ffff_ffffint,
        ;
        assert(abs_i(n@.x * amount * m_other) <= 0x8000_0000_0000_0000int * 0x0f_4240int
            * 0x1_d1a9_4a20_00int) by (nonlinear_arith)
            requires
                abs_i(n@.x * amount) <= 0x8000_0000_0000_0000int * 0x0f_4240int,
                abs_i(n@.x * amount) == if n@.x * amount >= 0 { n@.x * amount } else { -(n@.x * amount) },
                abs_i(n@.x * amount * m_other) == if n@.x * amount * m_other >= 0 { n@.x * amount * m_other } else { -(n@.x * amount * m_other) },
                0 <= m_other as int <= 0x1_d1a9_4a20_00int,
        ;
        assert(abs_i(n@.y * amount * m_other) <= 0x8000_0000_0000_0000int * 0x0f_4240int
            * 0x1_d1a9_4a20_00int) by (nonlinear_arith)
            requires
                abs_i(n@.y * amount) <= 0x8000_0000_0000_0000int * 0x0f_4240int,
                abs_i(n@.y * amount) == if n@.y * amount >= 0 { n@.y * amount } else { -(n@.y * amount) },
                abs_i(n@.y * amount * m_other) == if n@.y * amount * m_other >= 0 { n@.y * amount * m_other } else { -(n@.y * amount * m_other) },
                0 <= m_other as int <= 0x1_d1a9_4a20_00int,
        ;
        assert(0x8000_0000_0000_0000int * 0x0f_4240int * 0x1_d1a9_4a20_00int < i128::MAX);
        assert(crate::SCALE <= m_sum * crate::SCALE <= 2 * crate::MASS_LIMIT * crate::SCALE)
            by (nonlinear_arith)
            requires
                1 <= m_sum <= 2 * crate::MASS_LIMIT,
                crate::SCALE == 0x0f_4240,
        ;
    }
    let d: i128 = mul_wide(m_sum, crate::SCALE);
    let tx: i128 = mul_i128(mul_wide(n.x, amount), m_other as i128);
    let ty: i128 = mul_i128(mul_wide(n.y, amount), m_other as i128);
    let x = narrow(div_i128(tx, d));
    let y = narrow(div_i128(ty, d));
    Vec2 { x, y }
}

/// Computes the full share of `amount` along `n`.
pub(crate) fn full_share_exec(n: Vec2, amount: i64) -> (r: Vec2)
    requires
        abs_i(n@.x) <= crate::SCALE,
        abs_i(n@.y) <= crate::SCALE,
        in_i64(full_share(n@, amount as int).x),
        in_i64(full_share(n@, amount as int).y),
    ensures
        r@ == full_share(n@, amount as int),
        abs_i(r@.x) <= abs_i(amount as int),
        abs_i(r@.y) <= abs_i(amount as int),
{
    proof {
        lemma_full_share_bound(n@, amount as int);
    }
    let x = narrow(div_i128(mul_wide(n.x, amount), crate::SCALE as i128));
    let y = narrow(div_i128(mul_wide(n.y, amount), crate::SCALE as i128));
    Vec2 { x, y }
}

/// Projects both bodies of a dynamic-dynamic contact out of penetration,
/// splitting the correction by inverse mass: each position moves by the
/// other body's fraction of the pair's total mass.
pub fn constrain_body_positions(
    pos_a: &mut Pos,
    pos_b: &mut Pos,
    mass_a: &Mass,
    mass_b: &Mass,
    normal: Vec2,
    penetration_depth: i64,
)
    requires
        1 <= mass_a.0 <= crate::MASS_LIMIT,
        1 <= mass_b.0 <= crate::MASS_LIMIT,
        abs_i(normal@.x) <= crate::SCALE,
        abs_i(normal@.y) <= crate::SCALE,
        0 <= penetration_depth,
        in_i64(
            old(pos_a).0@.x - weighted_share(
                normal@,
                penetration_depth as int,
                mass_b.0 as int,
                mass_a.0 + mass_b.0,
            ).x,
        ),
        in_i64(
            old(pos_a).0@.y - weighted_share(
                normal@,
                penetration_depth as int,
                mass_b.0 as int,
                mass_a.0 + mass_b.0,
            ).y,
        ),
        in_i64(
            old(pos_b).0@.x + weighted_share(
                normal@,
                penetration_depth as int,
                mass_a.0 as int,
                mass_a.0 + mass_b.0,
            ).x,
        ),
        in_i64(
            old(pos_b).0@.y + weighted_share(
                normal@,
                penetration_depth as int,
                mass_a.0 as int,
                mass_a.0 + mass_b.0,
            ).y,
        ),
    ensures
        final(pos_a).0@ == old(pos_a).0@.minus(
            weighted_share(
                normal@,
                penetration_depth as int,
                mass_b.0 as int,
                mass_a.0 + mass_b.0,
            ),
        ),
        final(pos_b).0@ == old(pos_b).0@.plus(
            weighted_share(
                normal@,
                penetration_depth as int,
                mass_a.0 as int,
                mass_a.0 + mass_b.0,
            ),
        ),
{
    let m_sum = mass_a.0 + mass_b.0;
    proof {
        lemma_weighted_share_bound(
            normal@,
            penetration_depth as int,
            mass_b.0 as int,
            m_sum as int,
        );
        lemma_weighted_share_bound(
            normal@,
            penetration_depth as int,
            mass_a.0 as int,
            m_sum as int,
        );
    }
    let ca = weighted_share_exec(normal, penetration_depth, mass_b.0, m_sum);
    let cb = weighted_share_exec(normal, penetration_depth, mass_a.0, m_sum);
    pos_a.0 = Vec2 { x: pos_a.0.x - ca.x, y: pos_a.0.y - ca.y };
    pos_b.0 = Vec2 { x: pos_b.0.x + cb.x, y: pos_b.0.y + cb.y };
}

/// Both members of a candidate pair exist, are distinct and dynamic.
pub open spec fn pair_guard(bs: Seq<BodyV>, a: int, b: int) -> bool {
    0 <= a < bs.len() && 0 <= b < bs.len() && a != b && bs[a].is_dynamic() && bs[b].is_dynamic()
}

/// One candidate pair of a dynamic pass: the bodies after the
/// mass-weighted position correction, and the contact if there was one.
pub open spec fn pair_step(bs: Seq<BodyV>, a: int, b: int, kind: ContactKind) -> (
    Seq<BodyV>,
    Option<ContactV>,
) {
    if !pair_guard(bs, a, b) {
        (bs, None)
    } else {
        match narrow_phase(bs[a], bs[b], kind) {
            None => (bs, None),
            Some(c) => {
                let m_sum = bs[a].mass_val() + bs[b].mass_val();
                let ca = weighted_share(c.normal, c.penetration, bs[b].mass_val(), m_sum);
                let cb = weighted_share(c.normal, c.penetration, bs[a].mass_val(), m_sum);
                let bs1 = bs.update(a, BodyV { pos: bs[a].pos.minus(ca), ..bs[a] }).update(
                    b,
                    BodyV { pos: bs[b].pos.plus(cb), ..bs[b] },
                );
                (bs1, Some(c))
            },
        }
    }
}

/// The pair's correction stays within 64-bit range, and its geometry is
/// not degenerate.
pub open spec fn pair_step_ok(bs: Seq<BodyV>, a: int, b: int, kind: ContactKind) -> bool {
    pair_guard(bs, a, b) ==> {
        &&& fits_delta(bs[a].pos, bs[b].pos)
        &&& fits_delta(bs[b].pos, bs[a].pos)
        &&& ((kind == ContactKind::CircleCircle && bs[a].shape is Circle && bs[b].shape is Circle)
            ==> bs[a].pos != bs[b].pos)
        &&& match narrow_phase(bs[a], bs[b], kind) {
            None => true,
            Some(c) => {
                let m_sum = bs[a].mass_val() + bs[b].mass_val();
                let ca = weighted_share(c.normal, c.penetration, bs[b].mass_val(), m_sum);
                let cb = weighted_share(c.normal, c.penetration, bs[a].mass_val(), m_sum);
                in_i64(bs[a].pos.x - ca.x) && in_i64(bs[a].pos.y - ca.y) && in_i64(
                    bs[b].pos.x + cb.x,
                ) && in_i64(bs[b].pos.y + cb.y)
            },
        }
    }
}

/// A whole dynamic pass: the candidate pairs processed strictly in order,
/// each contact appended to the records.
pub open spec fn pairs_pass(
    bs: Seq<BodyV>,
    pairs: Seq<(usize, usize)>,
    recs: Seq<ContactRec>,
    kind: ContactKind,
) -> (Seq<BodyV>, Seq<ContactRec>)
    decreases pairs.len(),
{
    if pairs.len() <= 0 {
        (bs, recs)
    } else {
        let a = pairs[0].0 as int;
        let b = pairs[0].1 as int;
        let st = pair_step(bs, a, b, kind);
        let recs1 = match st.1 {
            Some(c) => recs.push(ContactRec { a, b, normal: c.normal }),
            None => recs,
        };
        pairs_pass(st.0, pairs.drop_first(), recs1, kind)
    }
}

/// Every pair of the pass stays within range on the states it meets.
pub open spec fn pairs_pass_ok(bs: Seq<BodyV>, pairs: Seq<(usize, usize)>, kind: ContactKind) -> bool
    decreases pairs.len(),
{
    pairs.len() <= 0 || {
        let a = pairs[0].0 as int;
        let b = pairs[0].1 as int;
        pair_step_ok(bs, a, b, kind) && pairs_pass_ok(
            pair_step(bs, a, b, kind).0,
            pairs.drop_first(),
            kind,
        )
    }
}

/// The dynamic candidate exists, is distinct from the static body, and
/// the static body is indeed static.
pub open spec fn static_guard(bs: Seq<BodyV>, i: int, j: int) -> bool {
    0 <= i < bs.len() && 0 <= j < bs.len() && bs[i].is_dynamic() && !bs[j].is_dynamic()
}

/// One dynamic-static candidate: the dynamic body pushed out by the full
/// penetration, and the contact if there was one.
pub open spec fn static_step(bs: Seq<BodyV>, i: int, j: int, kind: ContactKind) -> (
    Seq<BodyV>,
    Option<ContactV>,
) {
    if !static_guard(bs, i, j) {
        (bs, None)
    } else {
        match narrow_phase(bs[i], bs[j], kind) {
            None => (bs, None),
            Some(c) => (
                bs.update(
                    i,
                    BodyV { pos: bs[i].pos.minus(full_share(c.normal, c.penetration)), ..bs[i] },
                ),
                Some(c),
            ),
        }
    }
}

/// The candidate's correction stays within 64-bit range and its geometry
/// is not degenerate.
pub open spec fn static_step_ok(bs: Seq<BodyV>, i: int, j: int, kind: ContactKind) -> bool {
    static_guard(bs, i, j) ==> {
        &&& fits_delta(bs[i].pos, bs[j].pos)
        &&& fits_delta(bs[j].pos, bs[i].pos)
        &&& ((kind == ContactKind::CircleCircle && bs[i].shape is Circle && bs[j].shape is Circle)
            ==> bs[i].pos != bs[j].pos)
        &&& match narrow_phase(bs[i], bs[j], kind) {
            None => true,
            Some(c) => {
                let fs = full_share(c.normal, c.penetration);
                in_i64(bs[i].pos.x - fs.x) && in_i64(bs[i].pos.y - fs.y)
            },
        }
    }
}

/// One dynamic body solved against every static body in index order.
pub open spec fn static_inner(
    bs: Seq<BodyV>,
    i: int,
    j: int,
    recs: Seq<ContactRec>,
    kind: ContactKind,
) -> (Seq<BodyV>, Seq<ContactRec>)
    decreases bs.len() - j,
{
    if j < 0 || j >= bs.len() {
        (bs, recs)
    } else {
        let st = static_step(bs, i, j, kind);
        let recs1 = match st.1 {
            Some(c) => recs.push(ContactRec { a: i, b: j, normal: c.normal }),
            None => recs,
        };
        static_inner(st.0, i, j + 1, recs1, kind)
    }
}

/// Every static candidate of one dynamic body stays within range.
pub open spec fn static_inner_ok(bs: Seq<BodyV>, i: int, j: int, kind: ContactKind) -> bool
    decreases bs.len() - j,
{
    j < 0 || j >= bs.len() || (static_step_ok(bs, i, j, kind) && static_inner_ok(
        static_step(bs, i, j, kind).0,
        i,
        j + 1,
        kind,
    ))
}

/// The inner sweep does not change how many bodies there are.
pub proof fn lemma_static_inner_len(
    bs: Seq<BodyV>,
    i: int,
    j: int,
    recs: Seq<ContactRec>,
    kind: ContactKind,
)
    ensures
        static_inner(bs, i, j, recs, kind).0.len() == bs.len(),
    decreases bs.len() - j,
{
    if !(j < 0 || j >= bs.len()) {
        let st = static_step(bs, i, j, kind);
        let recs1 = match st.1 {
            Some(c) => recs.push(ContactRec { a: i, b: j, normal: c.normal }),
            None => recs,
        };
        lemma_static_inner_len(st.0, i, j + 1, recs1, kind);
    }
}

/// The bodies an inner sweep produces do not depend on the records it
/// was handed.
pub proof fn lemma_static_inner_recs(
    bs: Seq<BodyV>,
    i: int,
    j: int,
    r1: Seq<ContactRec>,
    r2: Seq<ContactRec>,
    kind: ContactKind,
)
    ensures
        static_inner(bs, i, j, r1, kind).0 == static_inner(bs, i, j, r2, kind).0,
    decreases bs.len() - j,
{
    if !(j < 0 || j >= bs.len()) {
        let st = static_step(bs, i, j, kind);
        let r1n = match st.1 {
            Some(c) => r1.push(ContactRec { a: i, b: j, normal: c.normal }),
            None => r1,
        };
        let r2n = match st.1 {
            Some(c) => r2.push(ContactRec { a: i, b: j, normal: c.normal }),
            None => r2,
        };
        lemma_static_inner_recs(st.0, i, j + 1, r1n, r2n, kind);
    }
}

/// A whole dynamic-static pass: every dynamic body in index order against
/// every static body in index order.
pub open spec fn static_pass(
    bs: Seq<BodyV>,
    i: int,
    recs: Seq<ContactRec>,
    kind: ContactKind,
) -> (Seq<BodyV>, Seq<ContactRec>)
    decreases bs.len() - i,
    via static_pass_decreases
{
    if i < 0 || i >= bs.len() {
        (bs, recs)
    } else {
        let inner = static_inner(bs, i, 0, recs, kind);
        static_pass(inner.0, i + 1, inner.1, kind)
    }
}

#[via_fn]
proof fn static_pass_decreases(bs: Seq<BodyV>, i: int, recs: Seq<ContactRec>, kind: ContactKind) {
    if !(i < 0 || i >= bs.len()) {
        lemma_static_inner_len(bs, i, 0, recs, kind);
    }
}

/// Every candidate of the pass stays within range.
pub open spec fn static_pass_ok(bs: Seq<BodyV>, i: int, kind: ContactKind) -> bool
    decreases bs.len() - i,
    via static_pass_ok_decreases
{
    i < 0 || i >= bs.len() || (static_inner_ok(bs, i, 0, kind) && static_pass_ok(
        static_inner(bs, i, 0, Seq::<ContactRec>::empty(), kind).0,
        i + 1,
        kind,
    ))
}

#[via_fn]
proof fn static_pass_ok_decreases(bs: Seq<BodyV>, i: int, kind: ContactKind) {
    if !(i < 0 || i >= bs.len()) {
        lemma_static_inner_len(bs, i, 0, Seq::<ContactRec>::empty(), kind);
    }
}

/// Projects a dynamic body out of a static one by the full penetration.
pub fn constrain_body_position(pos: &mut Pos, normal: Vec2, penetration_depth: i64)
    requires
        abs_i(normal@.x) <= crate::SCALE,
        abs_i(normal@.y) <= crate::SCALE,
        in_i64(full_share(normal@, penetration_depth as int).x),
        in_i64(full_share(normal@, penetration_depth as int).y),
        in_i64(old(pos).0@.x - full_share(normal@, penetration_depth as int).x),
        in_i64(old(pos).0@.y - full_share(normal@, penetration_depth as int).y),
    ensures
        final(pos).0@ == old(pos).0@.minus(full_share(normal@, penetration_depth as int)),
{
    let c = full_share_exec(normal, penetration_depth);
    pos.0 = Vec2 { x: pos.0.x - c.x, y: pos.0.y - c.y };
}


/// Runs one dynamic-dynamic position pass over the candidate pairs, in
/// order, recording every contact found.
#[verifier::rlimit(60)]
pub fn solve_dynamic_pairs(
    bodies: &mut Vec<Body>,
    pairs: &CollisionPairs,
    contacts: &mut Contacts,
    kind: ContactKind,
)
    requires
        world_wf(views(old(bodies)@)),
        pairs_pass_ok(views(old(bodies)@), pairs.0@, kind),
    ensures
        views(final(bodies)@) == pairs_pass(
            views(old(bodies)@),
            pairs.0@,
            recs_view(old(contacts).0@),
            kind,
        ).0,
        recs_view(final(contacts).0@) == pairs_pass(
            views(old(bodies)@),
            pairs.0@,
            recs_view(old(contacts).0@),
            kind,
        ).1,
        final(bodies)@.len() == old(bodies)@.len(),
        world_wf(views(final(bodies)@)),
        forall|j: int|
            0 <= j < old(bodies)@.len() && !views(old(bodies)@)[j].is_dynamic()
                ==> final(bodies)@[j] == old(bodies)@[j],
        forall|j: int|
            0 <= j < old(bodies)@.len() ==> same_constitution(
                (#[trigger] final(bodies)@[j])@,
                views(old(bodies)@)[j],
            ),
{
    let ghost bs0 = views(old(bodies)@);
    let ghost recs0 = recs_view(old(contacts).0@);
    let ghost full = pairs_pass(bs0, pairs.0@, recs0, kind);
    let n = bodies.len();
    let m = pairs.0.len();
    proof {
        assert(pairs.0@.skip(0) =~= pairs.0@);
    }
    let mut k: usize = 0;
    while k < m
        invariant
            bodies@.len() == n == bs0.len(),
            pairs.0@.len() == m,
            bs0 == views(old(bodies)@),
            recs0 == recs_view(old(contacts).0@),
            full == pairs_pass(bs0, pairs.0@, recs0, kind),
            k <= m,
            world_wf(views(bodies@)),
            pairs_pass(views(bodies@), pairs.0@.skip(k as int), recs_view(contacts.0@), kind)
                == full,
            pairs_pass_ok(views(bodies@), pairs.0@.skip(k as int), kind),
            forall|j: int|
                0 <= j < n && !bs0[j].is_dynamic() ==> #[trigger] bodies@[j] == old(bodies)@[j],
            forall|j: int|
                0 <= j < n ==> same_constitution((#[trigger] bodies@[j])@, bs0[j]),
        decreases m - k,
    {
        let ghost pre = views(bodies@);
        let ghost rpre = recs_view(contacts.0@);
        let ghost rem = pairs.0@.skip(k as int);
        let p = pairs.0[k];
        let ai = p.0;
        let bi = p.1;
        let ghost av = ai as int;
        let ghost bv = bi as int;
        proof {
            assert(rem[0] == pairs.0@[k as int]);
            assert(rem.drop_first() =~= pairs.0@.skip(k as int + 1));
            assert(pair_step_ok(pre, av, bv, kind));
        }
        let ghost st = pair_step(pre, av, bv, kind);
        if ai < n && bi < n && ai != bi {
            let body_a = bodies[ai];
            let body_b = bodies[bi];
            proof {
                assert(body_a@ == pre[av] && body_b@ == pre[bv]);
            }
            match (body_a.mass, body_b.mass) {
                (Some(ma), Some(mb)) => {
                    proof {
                        assert(pair_guard(pre, av, bv));
                    }
                    let c_opt = run_narrow_phase(&body_a, &body_b, kind);
                    match c_opt {
                        Some(c) => {
                            proof {
                                lemma_narrow_phase_wf(pre[av], pre[bv], kind);
                            }
                            let mut pa = body_a.pos;
                            let mut pb = body_b.pos;
                            constrain_body_positions(
                                &mut pa,
                                &mut pb,
                                &ma,
                                &mb,
                                c.normal,
                                c.penetration,
                            );
                            bodies[ai] = Body { pos: pa, ..body_a };
                            bodies[bi] = Body { pos: pb, ..body_b };
                            contacts.0.push((ai, bi, c.normal));
                            proof {
                                assert(views(bodies@) =~= st.0);
                                assert(recs_view(contacts.0@) =~= rpre.push(
                                    ContactRec { a: av, b: bv, normal: c@.normal },
                                ));
                            }
                        },
                        None => {
                            proof {
                                assert(st.0 == pre);
                                assert(views(bodies@) == st.0);
                            }
                        },
                    }
                },
                _ => {
                    proof {
                        assert(!pair_guard(pre, av, bv));
                        assert(views(bodies@) == st.0);
                    }
                },
            }
        } else {
            proof {
                assert(!pair_guard(pre, av, bv));
                assert(views(bodies@) == st.0);
            }
        }
        k = k + 1;
        proof {
            let recs1 = match st.1 {
                Some(c) => rpre.push(ContactRec { a: av, b: bv, normal: c.normal }),
                None => rpre,
            };
            assert(pairs_pass(pre, rem, rpre, kind) == pairs_pass(
                st.0,
                rem.drop_first(),
                recs1,
                kind,
            ));
            assert(recs_view(contacts.0@) == recs1);
            assert(pairs_pass(
                views(bodies@),
                pairs.0@.skip(k as int),
                recs_view(contacts.0@),
                kind,
            ) == full);
            assert(pairs_pass_ok(views(bodies@), pairs.0@.skip(k as int), kind));
        }
    }
    proof {
        assert(pairs.0@.skip(m as int) =~= Seq::<(usize, usize)>::empty());
        assert(views(bodies@) == full.0 && recs_view(contacts.0@) == full.1);
    }
}


/// Runs one dynamic-static position pass: every dynamic body is pushed
/// fully out of every static body it penetrates, in index order.
#[verifier::rlimit(100)]
#[verifier::loop_isolation(false)]
pub fn solve_static_pass(bodies: &mut Vec<Body>, contacts: &mut StaticContacts, kind: ContactKind)
    requires
        world_wf(views(old(bodies)@)),
        static_pass_ok(views(old(bodies)@), 0, kind),
    ensures
        views(final(bodies)@) == static_pass(
            views(old(bodies)@),
            0,
            recs_view(old(contacts).0@),
            kind,
        ).0,
        recs_view(final(contacts).0@) == static_pass(
            views(old(bodies)@),
            0,
            recs_view(old(contacts).0@),
            kind,
        ).1,
        final(bodies)@.len() == old(bodies)@.len(),
        world_wf(views(final(bodies)@)),
        forall|j: int|
            0 <= j < old(bodies)@.len() && !views(old(bodies)@)[j].is_dynamic()
                ==> final(bodies)@[j] == old(bodies)@[j],
        forall|j: int|
            0 <= j < old(bodies)@.len() ==> same_constitution(
                (#[trigger] final(bodies)@[j])@,
                views(old(bodies)@)[j],
            ),
{
    let ghost bs0 = views(old(bodies)@);
    let ghost recs0 = recs_view(old(contacts).0@);
    let ghost full = static_pass(bs0, 0, recs0, kind);
    let n = bodies.len();
    let mut i: usize = 0;
    while i < n
        invariant
            bodies@.len() == n,
            i <= n,
            world_wf(views(bodies@)),
            static_pass(views(bodies@), i as int, recs_view(contacts.0@), kind) == full,
            static_pass_ok(views(bodies@), i as int, kind),
            forall|q: int|
                0 <= q < n && !bs0[q].is_dynamic() ==> #[trigger] bodies@[q] == old(bodies)@[q],
            forall|q: int|
                0 <= q < n ==> same_constitution((#[trigger] bodies@[q])@, bs0[q]),
        decreases n - i,
    {
        let ghost outer_pre = views(bodies@);
        let ghost outer_rpre = recs_view(contacts.0@);
        let ghost inner_target = static_inner(outer_pre, i as int, 0, outer_rpre, kind);
        let mut j: usize = 0;
        while j < n
            invariant
                bodies@.len() == n,
                i < n,
                j <= n,
                world_wf(views(bodies@)),
                static_inner(views(bodies@), i as int, j as int, recs_view(contacts.0@), kind)
                    == inner_target,
                static_inner_ok(views(bodies@), i as int, j as int, kind),
                forall|q: int|
                    0 <= q < n && !bs0[q].is_dynamic() ==> #[trigger] bodies@[q] == old(
                        bodies,
                    )@[q],
                forall|q: int|
                    0 <= q < n ==> same_constitution((#[trigger] bodies@[q])@, bs0[q]),
            decreases n - j,
        {
            let ghost pre = views(bodies@);
            let ghost rpre = recs_view(contacts.0@);
            let ghost st = static_step(pre, i as int, j as int, kind);
            proof {
                assert(static_step_ok(pre, i as int, j as int, kind));
            }
            let body_i = bodies[i];
            let body_j = bodies[j];
            proof {
                assert(body_i@ == pre[i as int] && body_j@ == pre[j as int]);
            }
            match (body_i.mass, body_j.mass) {
                (Some(_mi), None) => {
                    proof {
                        assert(static_guard(pre, i as int, j as int));
                    }
                    let c_opt = run_narrow_phase(&body_i, &body_j, kind);
                    match c_opt {
                        Some(c) => {
                            proof {
                                lemma_narrow_phase_wf(pre[i as int], pre[j as int], kind);
                                lemma_full_share_bound(c@.normal, c@.penetration);
                            }
                            let mut p = body_i.pos;
                            constrain_body_position(&mut p, c.normal, c.penetration);
                            bodies[i] = Body { pos: p, ..body_i };
                            contacts.0.push((i, j, c.normal));
                            proof {
                                assert(views(bodies@) =~= st.0);
                                assert(recs_view(contacts.0@) =~= rpre.push(
                                    ContactRec { a: i as int, b: j as int, normal: c@.normal },
                                ));
                            }
                        },
                        None => {
                            proof {
                                assert(views(bodies@) == st.0);
                            }
                        },
                    }
                },
                _ => {
                    proof {
                        assert(!static_guard(pre, i as int, j as int));
                        assert(views(bodies@) == st.0);
                    }
                },
            }
            j = j + 1;
            proof {
                let recs1 = match st.1 {
                    Some(c) => rpre.push(ContactRec { a: i as int, b: j - 1, normal: c.normal }),
                    None => rpre,
                };
                assert(static_inner(pre, i as int, j - 1, rpre, kind) == static_inner(
                    st.0,
                    i as int,
                    j as int,
                    recs1,
                    kind,
                ));
                assert(recs_view(contacts.0@) == recs1);
            }
        }
        proof {
            assert(static_inner(views(bodies@), i as int, n as int, recs_view(contacts.0@), kind)
                == inner_target);
            assert(views(bodies@) == inner_target.0);
            assert(recs_view(contacts.0@) == inner_target.1);
            lemma_static_inner_recs(
                outer_pre,
                i as int,
                0,
                Seq::<ContactRec>::empty(),
                outer_rpre,
                kind,
            );
        }
        i = i + 1;
    }
    proof {
        assert(views(bodies@) == full.0 && recs_view(contacts.0@) == full.1);
    }
}


/// Position solve for dynamic-dynamic circle pairs from the broad-phase
/// candidate list, recording each contact for the velocity solve.
pub fn solve_pos(bodies: &mut Vec<Body>, pairs: &CollisionPairs, contacts: &mut Contacts)
    requires
        world_wf(views(old(bodies)@)),
        pairs_pass_ok(views(old(bodies)@), pairs.0@, ContactKind::CircleCircle),
    ensures
        views(final(bodies)@) == pairs_pass(
            views(old(bodies)@),
            pairs.0@,
            recs_view(old(contacts).0@),
            ContactKind::CircleCircle,
        ).0,
        recs_view(final(contacts).0@) == pairs_pass(
            views(old(bodies)@),
            pairs.0@,
            recs_view(old(contacts).0@),
            ContactKind::CircleCircle,
        ).1,
        final(bodies)@.len() == old(bodies)@.len(),
        world_wf(views(final(bodies)@)),
        forall|j: int|
            0 <= j < old(bodies)@.len() && !views(old(bodies)@)[j].is_dynamic()
                ==> final(bodies)@[j] == old(bodies)@[j],
        forall|j: int|
            0 <= j < old(bodies)@.len() ==> same_constitution(
                (#[trigger] final(bodies)@[j])@,
                views(old(bodies)@)[j],
            ),
{
    solve_dynamic_pairs(bodies, pairs, contacts, ContactKind::CircleCircle)
}

/// Position solve for dynamic-dynamic box pairs from the broad-phase
/// candidate list, recording each contact for the velocity solve.
pub fn solve_pos_box_box(bodies: &mut Vec<Body>, pairs: &CollisionPairs, contacts: &mut Contacts)
    requires
        world_wf(views(old(bodies)@)),
        pairs_pass_ok(views(old(bodies)@), pairs.0@, ContactKind::RectRect),
    ensures
        views(final(bodies)@) == pairs_pass(
            views(old(bodies)@),
            pairs.0@,
            recs_view(old(contacts).0@),
            ContactKind::RectRect,
        ).0,
        recs_view(final(contacts).0@) == pairs_pass(
            views(old(bodies)@),
            pairs.0@,
            recs_view(old(contacts).0@),
            ContactKind::RectRect,
        ).1,
        final(bodies)@.len() == old(bodies)@.len(),
        world_wf(views(final(bodies)@)),
        forall|j: int|
            0 <= j < old(bodies)@.len() && !views(old(bodies)@)[j].is_dynamic()
                ==> final(bodies)@[j] == old(bodies)@[j],
        forall|j: int|
            0 <= j < old(bodies)@.len() ==> same_constitution(
                (#[trigger] final(bodies)@[j])@,
                views(old(bodies)@)[j],
            ),
{
    solve_dynamic_pairs(bodies, pairs, contacts, ContactKind::RectRect)
}

/// Position solve of every dynamic circle against every static circle.
pub fn solve_pos_statics(bodies: &mut Vec<Body>, contacts: &mut StaticContacts)
    requires
        world_wf(views(old(bodies)@)),
        static_pass_ok(views(old(bodies)@), 0, ContactKind::CircleCircle),
    ensures
        views(final(bodies)@) == static_pass(
            views(old(bodies)@),
            0,
            recs_view(old(contacts).0@),
            ContactKind::CircleCircle,
        ).0,
        recs_view(final(contacts).0@) == static_pass(
            views(old(bodies)@),
            0,
            recs_view(old(contacts).0@),
            ContactKind::CircleCircle,
        ).1,
        final(bodies)@.len() == old(bodies)@.len(),
        world_wf(views(final(bodies)@)),
        forall|j: int|
            0 <= j < old(bodies)@.len() && !views(old(bodies)@)[j].is_dynamic()
                ==> final(bodies)@[j] == old(bodies)@[j],
        forall|j: int|
            0 <= j < old(bodies)@.len() ==> same_constitution(
                (#[trigger] final(bodies)@[j])@,
                views(old(bodies)@)[j],
            ),
{
    solve_static_pass(bodies, contacts, ContactKind::CircleCircle)
}

/// Position solve of every dynamic circle against every static box.
pub fn solve_pos_static_boxes(bodies: &mut Vec<Body>, contacts: &mut StaticContacts)
    requires
        world_wf(views(old(bodies)@)),
        static_pass_ok(views(old(bodies)@), 0, ContactKind::CircleRect),
    ensures
        views(final(bodies)@) == static_pass(
            views(old(bodies)@),
            0,
            recs_view(old(contacts).0@),
            ContactKind::CircleRect,
        ).0,
        recs_view(final(contacts).0@) == static_pass(
            views(old(bodies)@),
            0,
            recs_view(old(contacts).0@),
            ContactKind::CircleRect,
        ).1,
        final(bodies)@.len() == old(bodies)@.len(),
        world_wf(views(final(bodies)@)),
        forall|j: int|
            0 <= j < old(bodies)@.len() && !views(old(bodies)@)[j].is_dynamic()
                ==> final(bodies)@[j] == old(bodies)@[j],
        forall|j: int|
            0 <= j < old(bodies)@.len() ==> same_constitution(
                (#[trigger] final(bodies)@[j])@,
                views(old(bodies)@)[j],
            ),
{
    solve_static_pass(bodies, contacts, ContactKind::CircleRect)
}

/// Position solve of every dynamic box against every static box.
pub fn solve_pos_static_box_box(bodies: &mut Vec<Body>, contacts: &mut StaticContacts)
    requires
        world_wf(views(old(bodies)@)),
        static_pass_ok(views(old(bodies)@), 0, ContactKind::RectRect),
    ensures
        views(final(bodies)@) == static_pass(
            views(old(bodies)@),
            0,
            recs_view(old(contacts).0@),
            ContactKind::RectRect,
        ).0,
        recs_view(final(contacts).0@) == static_pass(
            views(old(bodies)@),
            0,
            recs_view(old(contacts).0@),
            ContactKind::RectRect,
        ).1,
        final(bodies)@.len() == old(bodies)@.len(),
        world_wf(views(final(bodies)@)),
        forall|j: int|
            0 <= j < old(bodies)@.len() && !views(old(bodies)@)[j].is_dynamic()
                ==> final(bodies)@[j] == old(bodies)@[j],
        forall|j: int|
            0 <= j < old(bodies)@.len() ==> same_constitution(
                (#[trigger] final(bodies)@[j])@,
                views(old(bodies)@)[j],
            ),
{
    solve_static_pass(bodies, contacts, ContactKind::RectRect)
}


/// The mass split of one resolved pair: with equal masses the two bodies
/// are displaced by exactly the same vector (one forward, one backward
/// along the normal); with unequal masses the lighter body is displaced
/// at least as far as the heavier, on each axis.
pub proof fn lemma_pair_step_mass_split(bs: Seq<BodyV>, a: int, b: int, kind: ContactKind)
    requires
        pair_guard(bs, a, b),
        narrow_phase(bs[a], bs[b], kind) is Some,
        bs[a].mass_val() >= 1,
        bs[b].mass_val() >= 1,
    ensures
        ({
            let st = pair_step(bs, a, b, kind).0;
            let da = bs[a].pos.minus(st[a].pos);
            let db = st[b].pos.minus(bs[b].pos);
            &&& (bs[a].mass_val() == bs[b].mass_val() ==> da == db)
            &&& (bs[a].mass_val() <= bs[b].mass_val() ==> abs_i(da.x) >= abs_i(db.x) && abs_i(
                da.y,
            ) >= abs_i(db.y))
        }),
{
    let c = narrow_phase(bs[a], bs[b], kind)->Some_0;
    let m_a = bs[a].mass_val();
    let m_b = bs[b].mass_val();
    let st = pair_step(bs, a, b, kind).0;
    let ca = weighted_share(c.normal, c.penetration, m_b, m_a + m_b);
    let cb = weighted_share(c.normal, c.penetration, m_a, m_a + m_b);
    assert(st[a].pos == bs[a].pos.minus(ca));
    assert(st[b].pos == bs[b].pos.plus(cb));
    assert(bs[a].pos.minus(st[a].pos) == ca);
    assert(st[b].pos.minus(bs[b].pos) == cb);
    lemma_weighted_share_split(c.normal, c.penetration, m_a, m_b);
}

} // verus!
