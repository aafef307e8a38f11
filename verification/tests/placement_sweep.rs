use arena_physics::circle::CircleCollider;
use arena_physics::collider::{update_colliders, Collider};
use arena_physics::pose::Pose;
use arena_physics::intersection::update_intersection;
use arena_physics::placement::get_random_position;
use arena_physics::polygon::PolygonCollider;
use arena_physics::vec2::Vec2I;

fn square(cx: i64, cy: i64, half: i64) -> PolygonCollider {
    PolygonCollider::new(vec![
        Vec2I::new(cx - half, cy - half),
        Vec2I::new(cx + half, cy - half),
        Vec2I::new(cx + half, cy + half),
        Vec2I::new(cx - half, cy + half),
    ])
    .unwrap()
}

#[test]
fn intersection_sweep_flags_touching_bodies() {
    let colliders = vec![
        Collider::Circle(CircleCollider::new(5, Vec2I::new(0, 0))),
        Collider::Circle(CircleCollider::new(5, Vec2I::new(6, 0))),
        Collider::Circle(CircleCollider::new(5, Vec2I::new(200, 0))),
    ];
    let flags = update_intersection(&colliders);
    assert_eq!(flags, vec![true, true, false]);
}

#[test]
fn intersection_sweep_mixed_shapes() {
    let colliders = vec![
        Collider::Polygon(square(0, 0, 5)),
        Collider::Circle(CircleCollider::new(2, Vec2I::new(5, 0))),
        Collider::Polygon(square(100, 100, 5)),
    ];
    let flags = update_intersection(&colliders);
    assert_eq!(flags, vec![true, true, false]);
}

#[test]
fn intersection_sweep_empty_and_single() {
    let none: Vec<Collider> = vec![];
    assert_eq!(update_intersection(&none).len(), 0);
    let one = vec![Collider::Circle(CircleCollider::new(5, Vec2I::new(0, 0)))];
    assert_eq!(update_intersection(&one), vec![false]);
}

#[test]
fn placement_succeeds_on_a_free_playfield() {
    let mut candidate = Collider::Polygon(square(0, 0, 15));
    let solids: Vec<Collider> = vec![];
    let r = get_random_position(&mut candidate, 400, 300, &solids, 16);
    let p = r.expect("a free playfield must yield a position");
    assert!(-400 <= p.x && p.x < 400);
    assert!(-300 <= p.y && p.y < 300);
}

#[test]
fn placement_avoids_a_distant_wall() {
    let mut candidate = Collider::Circle(CircleCollider::new(5, Vec2I::new(0, 0)));
    // The wall lies outside every admissible sample, so any draw is free.
    let solids = vec![Collider::Polygon(square(500, 0, 20))];
    let r = get_random_position(&mut candidate, 100, 100, &solids, 16);
    let p = r.expect("free space well away from the wall");
    assert!(-100 <= p.x && p.x < 100);
    match candidate {
        Collider::Circle(c) => assert_eq!(c.center, p),
        Collider::Polygon(_) => panic!("shape cannot change"),
    }
}

#[test]
fn placement_reports_failure_when_everything_is_blocked() {
    let mut candidate = Collider::Circle(CircleCollider::new(5, Vec2I::new(0, 0)));
    // One huge solid covers the whole admissible region.
    let solids = vec![Collider::Polygon(square(0, 0, 2000))];
    let r = get_random_position(&mut candidate, 100, 100, &solids, 8);
    assert!(r.is_err());
}

#[test]
fn update_colliders_refreshes_every_body() {
    let mut colliders = vec![
        Collider::Polygon(square(0, 0, 5)),
        Collider::Circle(CircleCollider::new(3, Vec2I::new(0, 0))),
    ];
    let poses = vec![
        Pose::from_translation(Vec2I::new(7, 0)),
        Pose::from_translation(Vec2I::new(-4, 2)),
    ];
    update_colliders(&mut colliders, &poses);
    match &colliders[0] {
        Collider::Polygon(p) => assert_eq!(p.vertices[0], Vec2I::new(2, -5)),
        Collider::Circle(_) => panic!("shape cannot change"),
    }
    match &colliders[1] {
        Collider::Circle(c) => assert_eq!(c.center, Vec2I::new(-4, 2)),
        Collider::Polygon(_) => panic!("shape cannot change"),
    }
}
