use arena_physics::circle::CircleCollider;
use arena_physics::collider::Collider;
use arena_physics::polygon::PolygonCollider;
use arena_physics::pose::{Pose, Rotation};
use arena_physics::vec2::Vec2I;
use arena_physics::ConfigurationError;

fn square(cx: i64, cy: i64, half: i64) -> PolygonCollider {
    PolygonCollider::new(vec![
        Vec2I::new(cx - half, cy - half),
        Vec2I::new(cx + half, cy - half),
        Vec2I::new(cx + half, cy + half),
        Vec2I::new(cx - half, cy + half),
    ])
    .unwrap()
}

#[test]
fn polygon_polygon_separation() {
    let a = square(0, 0, 5);
    let far = square(20, 0, 5);
    let near = square(5, 0, 5);
    assert!(!a.intersects(&far));
    assert!(a.intersects(&near));
}

#[test]
fn polygon_polygon_symmetry_concrete() {
    let a = square(0, 0, 5);
    let far = square(20, 0, 5);
    let near = square(5, 0, 5);
    assert_eq!(a.intersects(&far), far.intersects(&a));
    assert_eq!(a.intersects(&near), near.intersects(&a));
}

#[test]
fn circle_circle_distance() {
    let a = CircleCollider::new(5, Vec2I::new(0, 0));
    let b = CircleCollider::new(5, Vec2I::new(9, 0));
    let c = CircleCollider::new(5, Vec2I::new(11, 0));
    assert!(a.intersects(&b));
    assert!(b.intersects(&a));
    assert!(!a.intersects(&c));
    assert!(!c.intersects(&a));
}

#[test]
fn circle_circle_touching_is_not_intersecting() {
    let a = CircleCollider::new(5, Vec2I::new(0, 0));
    let b = CircleCollider::new(5, Vec2I::new(10, 0));
    assert!(!a.intersects(&b));
}

#[test]
fn polygon_circle_separation() {
    let sq = square(0, 0, 5);
    let far = CircleCollider::new(1, Vec2I::new(10, 0));
    let near = CircleCollider::new(1, Vec2I::new(5, 0));
    assert!(!sq.intersects_circle(&far));
    assert!(sq.intersects_circle(&near));
}

#[test]
fn collider_facade_symmetry() {
    let shapes = vec![
        Collider::Polygon(square(0, 0, 5)),
        Collider::Polygon(square(4, 3, 5)),
        Collider::Circle(CircleCollider::new(3, Vec2I::new(2, 0))),
        Collider::Circle(CircleCollider::new(2, Vec2I::new(40, 0))),
    ];
    for a in shapes.iter() {
        for b in shapes.iter() {
            assert_eq!(a.intersects(b), b.intersects(a));
        }
    }
}

#[test]
fn too_few_vertices_is_rejected() {
    let r = PolygonCollider::new(vec![Vec2I::new(0, 0), Vec2I::new(1, 0)]);
    assert_eq!(r.err(), Some(ConfigurationError::TooFewVertices));
}

#[test]
fn zero_length_edge_is_rejected() {
    let r = PolygonCollider::new(vec![
        Vec2I::new(0, 0),
        Vec2I::new(0, 0),
        Vec2I::new(1, 1),
    ]);
    assert_eq!(r.err(), Some(ConfigurationError::ZeroLengthEdge));
    let wrap = PolygonCollider::new(vec![
        Vec2I::new(0, 0),
        Vec2I::new(4, 0),
        Vec2I::new(0, 0),
    ]);
    assert_eq!(wrap.err(), Some(ConfigurationError::ZeroLengthEdge));
}

#[test]
fn width_and_height_are_the_bounding_box() {
    let sq = square(0, 0, 5);
    assert_eq!(sq.width, 10);
    assert_eq!(sq.height, 10);
    let c = Collider::Circle(CircleCollider::new(7, Vec2I::new(0, 0)));
    assert_eq!(c.width(), 14);
    assert_eq!(c.height(), 14);
}

#[test]
fn closest_vertex_earliest_wins_ties() {
    let sq = square(0, 0, 5);
    let v = sq.get_closest_vertex(Vec2I::new(10, 0));
    assert_eq!(v, Vec2I::new(5, -5));
}

#[test]
fn refresh_translates_and_rotates() {
    let mut sq = square(0, 0, 5);
    let pose = Pose::from_translation(Vec2I::new(10, 0));
    sq.update_vertices(&pose);
    assert_eq!(sq.vertices[0], Vec2I::new(5, -5));
    assert_eq!(sq.relative_vertices[0], Vec2I::new(-5, -5));

    let quarter = Pose {
        translation: Vec2I::new(0, 0),
        rotation: Rotation {
            cos_num: 0,
            sin_num: 1,
            den: 1,
        },
    };
    let mut sq2 = square(0, 0, 5);
    sq2.update_vertices(&quarter);
    assert_eq!(sq2.vertices[0], Vec2I::new(5, -5));
    assert_eq!(sq2.vertices[1], Vec2I::new(5, 5));
}

#[test]
fn refresh_is_required_before_queries() {
    let mut a = square(0, 0, 5);
    let b = square(20, 0, 5);
    assert!(!a.intersects(&b));
    a.update_vertices(&Pose::from_translation(Vec2I::new(20, 0)));
    assert!(a.intersects(&b));
}

#[test]
fn polygon_polygon_contact_vector() {
    let a = square(0, 0, 5);
    let b = square(5, 0, 5);
    let v = a.get_contact_vector(&b);
    assert_eq!(v, Vec2I::new(10, 0));
}

#[test]
fn circle_circle_contact_vector() {
    let a = CircleCollider::new(5, Vec2I::new(0, 0));
    let b = CircleCollider::new(3, Vec2I::new(3, 0));
    assert_eq!(a.get_contact_vector(&b), Vec2I::new(0, 5));

    let c = CircleCollider::new(5, Vec2I::new(2, 1));
    assert_eq!(a.get_contact_vector(&c), Vec2I::new(-2, 5));
}

#[test]
fn polygon_circle_contact_vector() {
    let sq = square(0, 0, 5);
    let c = CircleCollider::new(2, Vec2I::new(6, 0));
    let v = sq.get_contact_vector_circle(&c);
    assert_eq!(v, Vec2I::new(0, 10));
    let facade_a = Collider::Polygon(square(0, 0, 5));
    let facade_b = Collider::Circle(CircleCollider::new(2, Vec2I::new(6, 0)));
    assert_eq!(facade_a.get_contact_vector(&facade_b), Vec2I::new(0, 10));
    assert_eq!(facade_b.get_contact_vector(&facade_a), Vec2I::new(0, 10));
}

#[test]
fn circle_centred_on_a_vertex_still_intersects() {
    // The extra candidate axis from the closest vertex degenerates to zero
    // here; it must be skipped, not read as a separation.
    let sq = square(0, 0, 5);
    let c = CircleCollider::new(1, Vec2I::new(5, 5));
    assert!(sq.intersects_circle(&c));
}
