//! The solver stages and whole frames, on exact fixed-point values
//! (1_000_000 raw units per world unit; 60 frames/s, 10 sub-steps each).
use xpbd2d::broad::collect_collision_pairs;
use xpbd2d::solve_pos::constrain_body_positions;
use xpbd2d::{
    Aabb, BoxCollider, CircleCollider, CollisionPairs, Gravity, LoopState, Mass, ParticleBundle,
    Pos, Restitution, StaticBoxBundle, Vec2, World, XPBDPlugin,
};

fn v(x: i64, y: i64) -> Vec2 {
    Vec2::new(x, y)
}

fn particle(x: i64, y: i64, vx: i64, vy: i64, restitution: i64) -> xpbd2d::Body {
    let mut b = ParticleBundle::new_with_pos_and_vel(v(x, y), v(vx, vy)).into_body();
    b.restitution = Restitution(restitution);
    b
}

#[test]
fn defaults_match_the_documented_tuning() {
    assert_eq!(Gravity::default().0, v(0, -9_810_000));
    assert_eq!(Mass::default().0, 1_000_000);
    assert_eq!(Restitution::default().0, 300_000);
    assert_eq!(BoxCollider::default().size, v(1_000_000, 1_000_000));
    assert_eq!(CircleCollider::default().radius, 500_000);
    let ls = LoopState::default();
    assert!(!ls.has_added_time && ls.accumulator == 0 && ls.current_substep == 0 && !ls.substepping);
}

#[test]
fn new_with_pos_and_vel_backdates_previous_position() {
    let b = ParticleBundle::new_with_pos_and_vel(v(1_000_000, 0), v(600_000, -600));
    assert_eq!(b.prev_pos.0, v(1_000_000 - 1_000, 1));
    assert_eq!(b.pos.0, v(1_000_000, 0));
    assert_eq!(b.vel.0, v(600_000, -600));
}

#[test]
fn world_spawn_hands_out_ascending_identities() {
    let mut w = World::new();
    let a = w.spawn(particle(0, 0, 0, 0, 0));
    let b = w.spawn(particle(2_000_000, 0, 0, 0, 0));
    assert_eq!(a, 0);
    assert_eq!(b, 1);
    assert_eq!(w.bodies.len(), 2);
}

#[test]
fn free_fall_one_frame_is_exact() {
    let mut w = World::new();
    w.spawn(particle(0, 0, 0, 0, 0));
    XPBDPlugin::default().step(&mut w);
    // Ten sub-steps of gravity -9.81: the k-th sub-step moves the body
    // by exactly -27k raw units and resyncs its velocity accordingly.
    assert_eq!(w.bodies[0].pos.0, v(0, -1_485));
    assert_eq!(w.bodies[0].vel.0, v(0, -162_000));
}

#[test]
fn equal_masses_split_the_correction_evenly() {
    let mut pa = Pos(v(0, 0));
    let mut pb = Pos(v(900_000, 0));
    constrain_body_positions(
        &mut pa,
        &mut pb,
        &Mass(1_000_000),
        &Mass(1_000_000),
        v(1_000_000, 0),
        100_000,
    );
    assert_eq!(pa.0, v(-50_000, 0));
    assert_eq!(pb.0, v(950_000, 0));
}

#[test]
fn lighter_body_moves_proportionally_more() {
    let mut pa = Pos(v(0, 0));
    let mut pb = Pos(v(900_000, 0));
    // A weighs 1, B weighs 3: A takes three quarters of the correction.
    constrain_body_positions(
        &mut pa,
        &mut pb,
        &Mass(1_000_000),
        &Mass(3_000_000),
        v(1_000_000, 0),
        100_000,
    );
    assert_eq!(pa.0, v(-75_000, 0));
    assert_eq!(pb.0, v(925_000, 0));
}

#[test]
fn collect_pairs_orders_and_deduplicates() {
    let mut w = World::new();
    // Three overlapping dynamic circles and one static box in their midst.
    w.spawn(particle(0, 0, 0, 0, 0));
    w.spawn(particle(400_000, 0, 0, 0, 0));
    w.spawn(particle(0, 400_000, 0, 0, 0));
    w.spawn(StaticBoxBundle::default().into_body());
    // Boxes refresh only on `step`; set them directly here.
    for body in w.bodies.iter_mut() {
        let p = body.pos.0;
        body.bounds = Aabb {
            min: v(p.x - 500_000, p.y - 500_000),
            max: v(p.x + 500_000, p.y + 500_000),
        };
    }
    let mut pairs = CollisionPairs(Vec::new());
    collect_collision_pairs(&w.bodies, &mut pairs);
    // Every unordered pair of the three dynamic bodies, higher id first,
    // exactly once; the static body appears in none.
    assert_eq!(pairs.0, vec![(1, 0), (2, 0), (2, 1)]);
}

#[test]
fn aabb_intersects_reads_x_for_the_final_comparison() {
    // The last comparison uses the other box's maximum x where its
    // maximum y would be expected, so a box far below still "overlaps".
    let a = Aabb { min: v(0, 0), max: v(1_000_000, 1_000_000) };
    let b = Aabb { min: v(0, -8_000_000), max: v(1_000_000, -7_000_000) };
    assert!(a.intersects(&b));
    // Symmetric in the other order for this shape: b.max.y >= a.min.y fails.
    assert!(!b.intersects(&a));
}

#[test]
fn static_body_is_never_altered() {
    let mut w = World::new();
    // A dynamic circle resting deep inside a static box, pushed out over
    // the frame; the static box must not move at all.
    w.spawn(particle(0, -1_400_000, 0, 0, 300_000));
    let floor = StaticBoxBundle {
        pos: Pos(v(0, -3_000_000)),
        collider: BoxCollider { size: v(10_000_000, 2_000_000) },
        restitution: Restitution(300_000),
    };
    w.spawn(floor.into_body());
    let before = w.bodies[1];
    for _ in 0..10 {
        XPBDPlugin::default().step(&mut w);
    }
    let after = w.bodies[1];
    assert_eq!(after.pos.0, before.pos.0);
    assert_eq!(after.vel.0, before.vel.0);
    assert_eq!(after.prev_pos.0, before.prev_pos.0);
    assert_eq!(after.restitution.0, before.restitution.0);
}

#[test]
fn head_on_elastic_collision_reverses_speeds() {
    let mut w = World::new();
    w.gravity = Gravity(v(0, 0));
    // Equal masses, restitution 1, approaching at 3 units/s each.
    w.spawn(particle(-1_000_000, 0, 3_000_000, 0, 1_000_000));
    w.spawn(particle(1_000_000, 0, -3_000_000, 0, 1_000_000));
    for _ in 0..60 {
        XPBDPlugin::default().step(&mut w);
    }
    let va = w.bodies[0].vel.0.x;
    let vb = w.bodies[1].vel.0.x;
    println!("elastic outgoing: va={} vb={}", va, vb);
    // A full elastic bounce within sub-step integration error.
    assert!((va + 3_000_000).abs() < 300_000);
    assert!((vb - 3_000_000).abs() < 300_000);
}

#[test]
fn head_on_inelastic_collision_cancels_momenta() {
    let mut w = World::new();
    w.gravity = Gravity(v(0, 0));
    // Unit masses, restitution 0, from +-2 at 2 units/s toward the middle.
    w.spawn(particle(-2_000_000, 0, 2_000_000, 0, 0));
    w.spawn(particle(2_000_000, 0, -2_000_000, 0, 0));
    for _ in 0..120 {
        XPBDPlugin::default().step(&mut w);
    }
    let va = w.bodies[0].vel.0;
    let vb = w.bodies[1].vel.0;
    println!("inelastic outgoing: va=({},{}) vb=({},{})", va.x, va.y, vb.x, vb.y);
    assert!(va.x.abs() < 100_000);
    assert!(vb.x.abs() < 100_000);
    assert_eq!(va.y, 0);
    assert_eq!(vb.y, 0);
}

#[test]
fn falling_ball_settles_on_static_box() {
    let mut w = World::new();
    // A bouncy unit ball dropped from the origin onto a wide static box
    // centred at y = -3 with half-height 1: rest is y = -1.5.
    w.spawn(particle(0, 0, 0, 0, 1_000_000));
    let floor = StaticBoxBundle {
        pos: Pos(v(0, -3_000_000)),
        collider: BoxCollider { size: v(20_000_000, 2_000_000) },
        restitution: Restitution(1_000_000),
    };
    w.spawn(floor.into_body());
    let mut lowest: i64 = 0;
    let mut highest: i64 = i64::MIN;
    for _ in 0..3600 {
        XPBDPlugin::default().step(&mut w);
        let y = w.bodies[0].pos.0.y;
        if y < lowest {
            lowest = y;
        }
        if y > highest {
            highest = y;
        }
    }
    let yy = w.bodies[0].pos.0.y;
    println!("settled y={} lowest={} highest={}", yy, lowest, highest);
    // Never sinks through the box top (y = -2) and never escapes upward.
    assert!(lowest >= -1_600_000);
    assert!(highest <= 0);
    // The bouncing decays to exact resting contact at y = -1.5.
    assert_eq!(yy, -1_500_000);
    assert_eq!(w.bodies[0].vel.0, v(0, 0));
}
