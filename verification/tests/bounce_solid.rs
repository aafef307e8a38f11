use arena_physics::bounce::{bounce_tick, reflect, Bounce, BounceOutcome};
use arena_physics::circle::CircleCollider;
use arena_physics::collider::Collider;
use arena_physics::polygon::PolygonCollider;
use arena_physics::pose::Pose;
use arena_physics::solid::resolve_solid_collision;
use arena_physics::vec2::Vec2I;

fn square(cx: i64, cy: i64, half: i64) -> PolygonCollider {
    PolygonCollider::new(vec![
        Vec2I::new(cx - half, cy - half),
        Vec2I::new(cx + half, cy - half),
        Vec2I::new(cx + half, cy + half),
        Vec2I::new(cx - half, cy + half),
    ])
    .unwrap()
}

#[test]
fn reflect_across_horizontal_surface() {
    let v = Vec2I::new(3, -4);
    let n = Vec2I::new(10, 0);
    assert_eq!(reflect(v, n), Vec2I::new(-3, -4));
}

#[test]
fn reflect_across_diagonal_surface() {
    let v = Vec2I::new(3, -4);
    let n = Vec2I::new(1, 1);
    assert_eq!(reflect(v, n), Vec2I::new(4, -3));
}

#[test]
fn reflect_truncates_toward_zero() {
    let v = Vec2I::new(1, 0);
    let n = Vec2I::new(1, 2);
    assert_eq!(reflect(v, n), Vec2I::new(0, 0));
}

#[test]
fn reflect_zero_normal_keeps_velocity() {
    let v = Vec2I::new(3, -4);
    assert_eq!(reflect(v, Vec2I::new(0, 0)), v);
}

#[test]
fn bounce_depletion_over_three_distinct_solids() {
    let mut b = Bounce::new(2);
    let v = Vec2I::new(100, 0);
    let n = Vec2I::new(0, 10);
    let first = b.on_contact(1, v, n);
    assert!(matches!(first, BounceOutcome::Reflected(_)));
    assert_eq!(b.bounce_count, 1);
    let second = b.on_contact(2, v, n);
    assert!(matches!(second, BounceOutcome::Reflected(_)));
    assert_eq!(b.bounce_count, 0);
    let third = b.on_contact(3, v, n);
    assert_eq!(third, BounceOutcome::Destroyed);
}

#[test]
fn bounce_deduplicates_repeated_contacts() {
    let mut b = Bounce::new(5);
    let v = Vec2I::new(100, 0);
    let n = Vec2I::new(0, 10);
    let first = b.on_contact(7, v, n);
    assert!(matches!(first, BounceOutcome::Reflected(_)));
    assert_eq!(b.bounce_count, 4);
    for _ in 0..10 {
        let again = b.on_contact(7, v, n);
        assert_eq!(again, BounceOutcome::Ignored);
        assert_eq!(b.bounce_count, 4);
        assert_eq!(b.last_bounce, Some(7));
    }
    let other = b.on_contact(8, v, n);
    assert!(matches!(other, BounceOutcome::Reflected(_)));
    assert_eq!(b.bounce_count, 3);
}

#[test]
fn bounce_tick_reflects_on_overlapping_wall() {
    let mut b = Bounce::new(2);
    let mut v = Vec2I::new(3, -4);
    let projectile = Collider::Circle(CircleCollider::new(5, Vec2I::new(0, 0)));
    // The wall's nearest edge to the projectile is its left side, running
    // vertically: the contact vector is that edge, and reflecting across it
    // flips the velocity component along it.
    let wall = Collider::Polygon(square(6, 0, 5));
    let solids = vec![(42u64, wall)];
    let destroyed = bounce_tick(&mut b, &mut v, &projectile, &solids);
    assert!(!destroyed);
    assert_eq!(b.bounce_count, 1);
    assert_eq!(b.last_bounce, Some(42));
    assert_eq!(v, Vec2I::new(3, 4));
}

#[test]
fn bounce_tick_destroys_without_budget() {
    let mut b = Bounce::new(0);
    let mut v = Vec2I::new(3, 0);
    let projectile = Collider::Circle(CircleCollider::new(5, Vec2I::new(0, 0)));
    let wall = Collider::Polygon(square(6, 0, 5));
    let solids = vec![(42u64, wall)];
    let destroyed = bounce_tick(&mut b, &mut v, &projectile, &solids);
    assert!(destroyed);
    assert_eq!(v, Vec2I::new(3, 0));
}

#[test]
fn bounce_tick_ignores_remembered_partner() {
    let mut b = Bounce::new(2);
    let mut v = Vec2I::new(3, 0);
    let projectile = Collider::Circle(CircleCollider::new(5, Vec2I::new(0, 0)));
    let wall = Collider::Polygon(square(6, 0, 5));
    let solids = vec![(42u64, wall)];
    assert!(!bounce_tick(&mut b, &mut v, &projectile, &solids));
    assert_eq!(b.bounce_count, 1);
    // The projectile keeps overlapping the same wall on later ticks.
    assert!(!bounce_tick(&mut b, &mut v, &projectile, &solids));
    assert!(!bounce_tick(&mut b, &mut v, &projectile, &solids));
    assert_eq!(b.bounce_count, 1);
}

#[test]
fn rollback_restores_pre_movement_pose() {
    let mut mover = Collider::Polygon(square(0, 0, 5));
    let last_valid = Pose::from_translation(Vec2I::new(0, 0));
    let attempted = Pose::from_translation(Vec2I::new(28, 0));
    let wall = Collider::Polygon(square(30, 0, 5));
    let solids = vec![(9u64, wall)];
    let pose = resolve_solid_collision(&mut mover, 1, &last_valid, &attempted, &solids);
    assert_eq!(pose, last_valid);
}

#[test]
fn unobstructed_movement_keeps_attempted_pose() {
    let mut mover = Collider::Polygon(square(0, 0, 5));
    let last_valid = Pose::from_translation(Vec2I::new(0, 0));
    let attempted = Pose::from_translation(Vec2I::new(10, 0));
    let wall = Collider::Polygon(square(30, 0, 5));
    let solids = vec![(9u64, wall)];
    let pose = resolve_solid_collision(&mut mover, 1, &last_valid, &attempted, &solids);
    assert_eq!(pose, attempted);
}

#[test]
fn rollback_skips_the_mover_itself() {
    let mut mover = Collider::Polygon(square(0, 0, 5));
    let last_valid = Pose::from_translation(Vec2I::new(0, 0));
    let attempted = Pose::from_translation(Vec2I::new(28, 0));
    // The only overlapping entry carries the mover's own id.
    let own = Collider::Polygon(square(28, 0, 5));
    let solids = vec![(1u64, own)];
    let pose = resolve_solid_collision(&mut mover, 1, &last_valid, &attempted, &solids);
    assert_eq!(pose, attempted);
}
