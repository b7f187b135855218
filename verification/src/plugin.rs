//! The frame driver: one sub-step as the fixed sequence of solver stages,
//! and one outer frame as the bounding-box refresh, one broad-phase pass,
//! and the sub-step cycle run `crate::NUM_SUBSTEPS` times.
use crate::broad::{
    collect_collision_pairs, collect_spec, update_aabb_box, update_aabb_circle,
    update_aabb_circle_all_ok, update_aabb_circle_spec, update_aabb_rect_all_ok,
    update_aabb_rect_spec,
};
use crate::components::Vec2V;
use crate::integrate::{
    integrate, integrate_all_ok, integrate_spec, update_vel, update_vel_all_ok, update_vel_spec,
};
use crate::resources::{Contacts, StaticContacts};
use crate::solve_pos::{
    pairs_pass, pairs_pass_ok, recs_view, solve_pos, solve_pos_box_box, solve_pos_static_box_box,
    solve_pos_static_boxes, solve_pos_statics, static_pass, static_pass_ok, ContactKind,
    ContactRec,
};
use crate::solve_vel::{
    solve_vel, solve_vel_pass, solve_vel_pass_ok, solve_vel_statics, solve_vel_statics_pass,
    solve_vel_statics_pass_ok,
};
use crate::world::{views, same_constitution, BodyV, world_wf, World};
use vstd::prelude::*;

verus! {

/// One sub-step: integrate, solve positions (dynamic circle pairs, then
/// dynamic box pairs, then the three dynamic-static passes), resync
/// velocities, then solve velocities for the recorded contacts. Returns
/// the bodies and the sub-step's two freshly built record lists.
///
/// Two deliberate choices: a dynamic circle meeting a dynamic box has no
/// narrow-phase path — the pair passes through unresolved, a documented
/// gap of this solver — and both dynamic passes record their contacts,
/// so circle pairs receive restitution like box pairs do.
pub open spec fn substep_spec(bs: Seq<BodyV>, g: Vec2V, pairs: Seq<(usize, usize)>) -> (
    Seq<BodyV>,
    Seq<ContactRec>,
    Seq<ContactRec>,
) {
    let s1 = integrate_spec(bs, g);
    let d1 = pairs_pass(s1, pairs, Seq::empty(), ContactKind::CircleCircle);
    let d2 = pairs_pass(d1.0, pairs, d1.1, ContactKind::RectRect);
    let t1 = static_pass(d2.0, 0, Seq::empty(), ContactKind::CircleCircle);
    let t2 = static_pass(t1.0, 0, t1.1, ContactKind::CircleRect);
    let t3 = static_pass(t2.0, 0, t2.1, ContactKind::RectRect);
    let s7 = update_vel_spec(t3.0);
    let s8 = solve_vel_pass(s7, d2.1);
    let s9 = solve_vel_statics_pass(s8, t3.1);
    (s9, d2.1, t3.1)
}

/// Every stage of the sub-step stays within 64-bit range on the states
/// it meets.
pub open spec fn substep_ok(bs: Seq<BodyV>, g: Vec2V, pairs: Seq<(usize, usize)>) -> bool {
    let s1 = integrate_spec(bs, g);
    let d1 = pairs_pass(s1, pairs, Seq::empty(), ContactKind::CircleCircle);
    let d2 = pairs_pass(d1.0, pairs, d1.1, ContactKind::RectRect);
    let t1 = static_pass(d2.0, 0, Seq::empty(), ContactKind::CircleCircle);
    let t2 = static_pass(t1.0, 0, t1.1, ContactKind::CircleRect);
    let t3 = static_pass(t2.0, 0, t2.1, ContactKind::RectRect);
    let s7 = update_vel_spec(t3.0);
    let s8 = solve_vel_pass(s7, d2.1);
    &&& integrate_all_ok(bs, g)
    &&& pairs_pass_ok(s1, pairs, ContactKind::CircleCircle)
    &&& pairs_pass_ok(d1.0, pairs, ContactKind::RectRect)
    &&& static_pass_ok(d2.0, 0, ContactKind::CircleCircle)
    &&& static_pass_ok(t1.0, 0, ContactKind::CircleRect)
    &&& static_pass_ok(t2.0, 0, ContactKind::RectRect)
    &&& update_vel_all_ok(t3.0)
    &&& solve_vel_pass_ok(s7, d2.1)
    &&& solve_vel_statics_pass_ok(s8, t3.1)
}

/// Runs one sub-step on the world, rebuilding both contact record lists.
pub fn run_substep(world: &mut World)
    requires
        world_wf(views(old(world).bodies@)),
        substep_ok(views(old(world).bodies@), old(world).gravity.0@, old(world).collision_pairs.0@),
    ensures
        views(final(world).bodies@) == substep_spec(
            views(old(world).bodies@),
            old(world).gravity.0@,
            old(world).collision_pairs.0@,
        ).0,
        recs_view(final(world).contacts.0@) == substep_spec(
            views(old(world).bodies@),
            old(world).gravity.0@,
            old(world).collision_pairs.0@,
        ).1,
        recs_view(final(world).static_contacts.0@) == substep_spec(
            views(old(world).bodies@),
            old(world).gravity.0@,
            old(world).collision_pairs.0@,
        ).2,
        final(world).gravity == old(world).gravity,
        final(world).collision_pairs.0@ == old(world).collision_pairs.0@,
        final(world).bodies@.len() == old(world).bodies@.len(),
        world_wf(views(final(world).bodies@)),
        forall|j: int|
            0 <= j < old(world).bodies@.len() && !views(old(world).bodies@)[j].is_dynamic()
                ==> final(world).bodies@[j] == old(world).bodies@[j],
        forall|j: int|
            0 <= j < old(world).bodies@.len() ==> same_constitution(
                (#[trigger] final(world).bodies@[j])@,
                views(old(world).bodies@)[j],
            ),
{
    let mut contacts = Contacts(Vec::new());
    let mut statics = StaticContacts(Vec::new());
    proof {
        assert(recs_view(contacts.0@) =~= Seq::<ContactRec>::empty());
        assert(recs_view(statics.0@) =~= Seq::<ContactRec>::empty());
    }
    integrate(&mut world.bodies, &world.gravity);
    solve_pos(&mut world.bodies, &world.collision_pairs, &mut contacts);
    solve_pos_box_box(&mut world.bodies, &world.collision_pairs, &mut contacts);
    solve_pos_statics(&mut world.bodies, &mut statics);
    solve_pos_static_boxes(&mut world.bodies, &mut statics);
    solve_pos_static_box_box(&mut world.bodies, &mut statics);
    update_vel(&mut world.bodies);
    solve_vel(&mut world.bodies, &contacts);
    solve_vel_statics(&mut world.bodies, &statics);
    world.contacts = contacts;
    world.static_contacts = statics;
}

/// The world after `k` sub-steps over one fixed candidate list, with the
/// record lists of the last sub-step run (empty when `k` is 0).
pub open spec fn frame_substeps(bs: Seq<BodyV>, g: Vec2V, pairs: Seq<(usize, usize)>, k: nat) -> (
    Seq<BodyV>,
    Seq<ContactRec>,
    Seq<ContactRec>,
)
    decreases k,
{
    if k == 0 {
        (bs, Seq::empty(), Seq::empty())
    } else {
        let prev = frame_substeps(bs, g, pairs, (k - 1) as nat);
        substep_spec(prev.0, g, pairs)
    }
}

/// Every sub-step of the cycle stays within 64-bit range.
pub open spec fn frame_substeps_ok(
    bs: Seq<BodyV>,
    g: Vec2V,
    pairs: Seq<(usize, usize)>,
    k: nat,
) -> bool
    decreases k,
{
    k == 0 || (frame_substeps_ok(bs, g, pairs, (k - 1) as nat) && substep_ok(
        frame_substeps(bs, g, pairs, (k - 1) as nat).0,
        g,
        pairs,
    ))
}

/// A valid cycle is valid at every prefix, and the next sub-step after
/// any strict prefix stays within range.
pub proof fn lemma_frame_ok_prefix(
    bs: Seq<BodyV>,
    g: Vec2V,
    pairs: Seq<(usize, usize)>,
    k: nat,
    m: nat,
)
    requires
        frame_substeps_ok(bs, g, pairs, m),
        k < m,
    ensures
        substep_ok(frame_substeps(bs, g, pairs, k).0, g, pairs),
    decreases m,
{
    if k + 1 < m {
        lemma_frame_ok_prefix(bs, g, pairs, k, (m - 1) as nat);
    }
}

/// The world at the start of the sub-step cycle: every dynamic box's
/// bounding box refreshed, then every dynamic circle's.
pub open spec fn step_prep(bs: Seq<BodyV>) -> Seq<BodyV> {
    update_aabb_circle_spec(update_aabb_rect_spec(bs))
}

/// One whole frame of the given world, as bodies, dynamic records and
/// static records: boxes refreshed, candidates collected once, and the
/// sub-step cycle run `crate::NUM_SUBSTEPS` times over that one list.
pub open spec fn step_spec(bs: Seq<BodyV>, g: Vec2V) -> (
    Seq<BodyV>,
    Seq<ContactRec>,
    Seq<ContactRec>,
) {
    frame_substeps(step_prep(bs), g, collect_spec(step_prep(bs)), crate::NUM_SUBSTEPS as nat)
}

/// Every stage of the frame stays within 64-bit range.
pub open spec fn step_ok(bs: Seq<BodyV>, g: Vec2V) -> bool {
    &&& update_aabb_rect_all_ok(bs)
    &&& update_aabb_circle_all_ok(update_aabb_rect_spec(bs))
    &&& frame_substeps_ok(
        step_prep(bs),
        g,
        collect_spec(step_prep(bs)),
        crate::NUM_SUBSTEPS as nat,
    )
}

/// The sub-stepped position solver, packaged as the one per-frame entry
/// point a host calls.
#[derive(Debug)]
pub struct XPBDPlugin;

impl Default for XPBDPlugin {
    fn default() -> (r: Self) {
        XPBDPlugin
    }
}

impl XPBDPlugin {
    /// Advances the world by one outer frame: refreshes every dynamic
    /// body's bounding box, collects the broad-phase candidate pairs
    /// once, and runs the sub-step cycle `crate::NUM_SUBSTEPS` times
    /// over that one list. Static bodies are never altered.
    pub fn step(&self, world: &mut World)
        requires
            world_wf(views(old(world).bodies@)),
            step_ok(views(old(world).bodies@), old(world).gravity.0@),
        ensures
            views(final(world).bodies@) == step_spec(
                views(old(world).bodies@),
                old(world).gravity.0@,
            ).0,
            recs_view(final(world).contacts.0@) == step_spec(
                views(old(world).bodies@),
                old(world).gravity.0@,
            ).1,
            recs_view(final(world).static_contacts.0@) == step_spec(
                views(old(world).bodies@),
                old(world).gravity.0@,
            ).2,
            final(world).collision_pairs.0@ == collect_spec(
                step_prep(views(old(world).bodies@)),
            ),
            final(world).gravity == old(world).gravity,
            final(world).bodies@.len() == old(world).bodies@.len(),
            world_wf(views(final(world).bodies@)),
            forall|j: int|
                0 <= j < old(world).bodies@.len() && !views(old(world).bodies@)[j].is_dynamic()
                    ==> final(world).bodies@[j] == old(world).bodies@[j],
            forall|j: int|
                0 <= j < old(world).bodies@.len() ==> same_constitution(
                    (#[trigger] final(world).bodies@[j])@,
                    views(old(world).bodies@)[j],
                ),
    {
        let ghost bs0 = views(old(world).bodies@);
        let ghost g = old(world).gravity.0@;
        update_aabb_box(&mut world.bodies);
        update_aabb_circle(&mut world.bodies);
        proof {
            assert(views(world.bodies@) == step_prep(bs0));
        }
        collect_collision_pairs(&world.bodies, &mut world.collision_pairs);
        let ghost prep = views(world.bodies@);
        let ghost pairs = world.collision_pairs.0@;
        let mut s: u32 = 0;
        while s < crate::NUM_SUBSTEPS
            invariant
                s <= crate::NUM_SUBSTEPS,
                world.bodies@.len() == bs0.len(),
                world.gravity.0@ == g,
                world.collision_pairs.0@ == pairs,
                pairs == collect_spec(prep),
                prep == step_prep(bs0),
                frame_substeps_ok(prep, g, pairs, crate::NUM_SUBSTEPS as nat),
                world_wf(views(world.bodies@)),
                views(world.bodies@) == frame_substeps(prep, g, pairs, s as nat).0,
                s > 0 ==> recs_view(world.contacts.0@) == frame_substeps(prep, g, pairs, s as nat).1,
                s > 0 ==> recs_view(world.static_contacts.0@) == frame_substeps(
                    prep,
                    g,
                    pairs,
                    s as nat,
                ).2,
                forall|j: int|
                    0 <= j < bs0.len() && !bs0[j].is_dynamic() ==> #[trigger] world.bodies@[j]
                        == old(world).bodies@[j],
                forall|j: int|
                    0 <= j < bs0.len() ==> same_constitution(
                        (#[trigger] world.bodies@[j])@,
                        bs0[j],
                    ),
            decreases crate::NUM_SUBSTEPS - s,
        {
            proof {
                lemma_frame_ok_prefix(prep, g, pairs, s as nat, crate::NUM_SUBSTEPS as nat);
            }
            run_substep(world);
            s = s + 1;
        }
    }
}

} // verus!
