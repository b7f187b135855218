//! Narrow-phase contact generation, on exact fixed-point values
//! (1_000_000 raw units per world unit).
use xpbd2d::contact::{ball_ball, ball_box, box_box};
use xpbd2d::{CircleCollider, Vec2};

fn v(x: i64, y: i64) -> Vec2 {
    Vec2::new(x, y)
}

#[test]
fn circle_collider_sets_expected_defaults() {
    let collider = CircleCollider::default();
    let result = collider.radius;

    assert_eq!(result, 500_000);
}

#[test]
fn box_box_clear() {
    assert!(box_box(v(0, 0), v(1_000_000, 1_000_000), v(1_100_000, 0), v(1_000_000, 1_000_000))
        .is_none());
    assert!(box_box(v(0, 0), v(1_000_000, 1_000_000), v(-1_100_000, 0), v(1_000_000, 1_000_000))
        .is_none());
    assert!(box_box(v(0, 0), v(1_000_000, 1_000_000), v(0, 1_100_000), v(1_000_000, 1_000_000))
        .is_none());
    assert!(box_box(v(0, 0), v(1_000_000, 1_000_000), v(0, -1_100_000), v(1_000_000, 1_000_000))
        .is_none());
}

#[test]
fn box_box_intersection() {
    assert!(box_box(v(0, 0), v(1_000_000, 1_000_000), v(0, 0), v(1_000_000, 1_000_000)).is_some());
    assert!(box_box(v(0, 0), v(1_000_000, 1_000_000), v(900_000, 900_000), v(1_000_000, 1_000_000))
        .is_some());
    assert!(box_box(
        v(0, 0),
        v(1_000_000, 1_000_000),
        v(-900_000, -900_000),
        v(1_000_000, 1_000_000)
    )
    .is_some());
}

#[test]
fn box_box_contact() {
    let c = box_box(v(0, 0), v(1_000_000, 1_000_000), v(900_000, 0), v(1_000_000, 1_000_000))
        .unwrap();

    assert!(c.normal.x > 0);
    assert!(c.normal.y < 1_000);
    assert!((c.penetration - 100_000).abs() < 1_000);
}

#[test]
fn ball_ball_exact_penetration_and_normal() {
    // Centres 1.0 apart (a 0.6/0.8 right triangle), radii 0.6 each.
    let c = ball_ball(v(0, 0), 600_000, v(600_000, 800_000), 600_000).unwrap();
    assert_eq!(c.penetration, 200_000);
    assert_eq!(c.normal.x, 600_000);
    assert_eq!(c.normal.y, 800_000);
}

#[test]
fn ball_ball_touching_is_no_contact() {
    // Separation exactly equals the combined radius: strict test, so None.
    assert!(ball_ball(v(0, 0), 500_000, v(1_000_000, 0), 500_000).is_none());
    // One raw unit closer and they overlap.
    assert!(ball_ball(v(0, 0), 500_000, v(999_999, 0), 500_000).is_some());
}

#[test]
fn ball_box_edge_contact() {
    // Circle just right of a 2x2 box: nearest to the vertical edge.
    let c = ball_box(v(1_200_000, 0), 500_000, v(0, 0), v(2_000_000, 2_000_000)).unwrap();
    assert_eq!(c.normal.x, -1_000_000);
    assert_eq!(c.normal.y, 0);
    assert_eq!(c.penetration, 300_000);
}

#[test]
fn ball_box_corner_contact() {
    // Circle past the top-right corner of a 2x2 box, 0.5 from the corner.
    let c = ball_box(v(1_300_000, 1_400_000), 600_000, v(0, 0), v(2_000_000, 2_000_000)).unwrap();
    assert_eq!(c.penetration, 100_000);
    assert_eq!(c.normal.x, -600_000);
    assert_eq!(c.normal.y, -800_000);
}

#[test]
fn ball_box_clear() {
    assert!(ball_box(v(2_000_000, 2_000_000), 500_000, v(0, 0), v(2_000_000, 2_000_000))
        .is_none());
}

#[test]
fn box_box_swapped_flips_normal_keeps_depth() {
    let a_pos = v(0, 0);
    let a_size = v(2_000_000, 1_000_000);
    let b_pos = v(500_000, 200_000);
    let b_size = v(1_000_000, 1_000_000);
    let ab = box_box(a_pos, a_size, b_pos, b_size).unwrap();
    let ba = box_box(b_pos, b_size, a_pos, a_size).unwrap();
    assert_eq!(ab.penetration, ba.penetration);
    assert_eq!(ab.penetration, 800_000);
    assert_eq!(ab.normal.x, -ba.normal.x);
    assert_eq!(ab.normal.y, -ba.normal.y);
    assert_eq!(ab.normal.y, 1_000_000);
}
