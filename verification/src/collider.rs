use vstd::prelude::*;

use crate::circle::CircleCollider;
use crate::geom::{
    circle_circle_contact, circle_circle_intersects, edge, poly_circle_contact,
    poly_circle_intersects, poly_poly_contact, poly_poly_intersects, sep_axis_poly_poly,
};
use crate::polygon::PolygonCollider;
use crate::pose::Pose;
use crate::vec2::{V2, Vec2I};
use crate::NORMAL_LIMIT;

verus! {

/// Marker for shapes that can take part in intersection queries.
pub trait ColliderVolume {

}

/// Marker for bounding shapes.
pub trait BoundingVolume {

}

impl ColliderVolume for PolygonCollider {

}

impl ColliderVolume for CircleCollider {

}

impl BoundingVolume for PolygonCollider {

}

impl BoundingVolume for CircleCollider {

}

/// A body's bounding shape: the closed union of the two primitives, with
/// every pairwise operation dispatching on both variants.
#[derive(Clone, Debug)]
pub enum Collider {
    Polygon(PolygonCollider),
    Circle(CircleCollider),
}

/// How a refresh carries a collider from its state before the call to its
/// state after: the shape and its local geometry are kept, the world-space
/// geometry is recomputed from the pose.
pub open spec fn refreshed(before: Collider, after: Collider, pose: Pose) -> bool {
    match (before, after) {
        (Collider::Polygon(p0), Collider::Polygon(p1)) => {
            &&& p1.relative_vertices == p0.relative_vertices
            &&& p1.width == p0.width
            &&& p1.height == p0.height
            &&& p1.vertices@.len() == p0.vertices@.len()
            &&& forall|i: int|
                0 <= i < p1.world_seq().len() ==> p1.world_seq()[i] == pose.apply_spec(
                    #[trigger] p0.rel_seq()[i],
                )
        },
        (Collider::Circle(c0), Collider::Circle(c1)) => {
            &&& c1.radius == c0.radius
            &&& c1.center == pose.translation
        },
        _ => false,
    }
}

/// Two colliders are the same shape with the same local geometry; only their
/// world-space caches may differ.
pub open spec fn same_shape(a: Collider, b: Collider) -> bool {
    match (a, b) {
        (Collider::Polygon(p0), Collider::Polygon(p1)) => {
            &&& p1.relative_vertices == p0.relative_vertices
            &&& p1.width == p0.width
            &&& p1.height == p0.height
            &&& p1.vertices@.len() == p0.vertices@.len()
        },
        (Collider::Circle(c0), Collider::Circle(c1)) => c1.radius == c0.radius,
        _ => false,
    }
}

impl Collider {
    pub open spec fn well_formed(self) -> bool {
        match self {
            Collider::Polygon(p) => p.well_formed(),
            Collider::Circle(c) => c.well_formed(),
        }
    }

    /// What `intersects` returns, by shape pair.
    pub open spec fn spec_intersects(self, other: Collider) -> bool {
        match (self, other) {
            (Collider::Polygon(a), Collider::Polygon(b)) => poly_poly_intersects(
                a.world_seq(),
                b.world_seq(),
            ),
            (Collider::Polygon(a), Collider::Circle(c)) => poly_circle_intersects(
                a.world_seq(),
                c.center@,
                c.radius as int,
            ),
            (Collider::Circle(c), Collider::Polygon(a)) => poly_circle_intersects(
                a.world_seq(),
                c.center@,
                c.radius as int,
            ),
            (Collider::Circle(c), Collider::Circle(d)) => circle_circle_intersects(
                c.center@,
                c.radius as int,
                d.center@,
                d.radius as int,
            ),
        }
    }

    /// What `get_contact_vector` returns, by shape pair.
    pub open spec fn spec_contact_vector(self, other: Collider) -> V2 {
        match (self, other) {
            (Collider::Polygon(a), Collider::Polygon(b)) => poly_poly_contact(
                a.world_seq(),
                b.world_seq(),
            ),
            (Collider::Polygon(a), Collider::Circle(c)) => poly_circle_contact(
                a.world_seq(),
                c.center@,
            ),
            (Collider::Circle(c), Collider::Polygon(a)) => poly_circle_contact(
                a.world_seq(),
                c.center@,
            ),
            (Collider::Circle(c), Collider::Circle(d)) => circle_circle_contact(
                c.center@,
                c.radius as int,
                d.center@,
            ),
        }
    }

    /// Pairwise intersection test, dispatching to the separating-axis or
    /// distance test of the shape pair. Requires fresh world-space geometry.
    pub fn intersects(&self, other: &Collider) -> (r: bool)
        requires
            self.well_formed(),
            other.well_formed(),
        ensures
            r == self.spec_intersects(*other),
    {
        match self {
            Collider::Polygon(a) => match other {
                Collider::Polygon(b) => a.intersects(b),
                Collider::Circle(c) => a.intersects_circle(c),
            },
            Collider::Circle(c) => match other {
                Collider::Polygon(a) => a.intersects_circle(c),
                Collider::Circle(d) => c.intersects(d),
            },
        }
    }

    /// Approximate contact direction for the shape pair, used for velocity
    /// reflection.
    pub fn get_contact_vector(&self, other: &Collider) -> (r: Vec2I)
        requires
            self.well_formed(),
            other.well_formed(),
        ensures
            r@ == self.spec_contact_vector(*other),
            r@.in_range(NORMAL_LIMIT as int),
    {
        match self {
            Collider::Polygon(a) => match other {
                Collider::Polygon(b) => a.get_contact_vector(b),
                Collider::Circle(c) => a.get_contact_vector_circle(c),
            },
            Collider::Circle(c) => match other {
                Collider::Polygon(a) => a.get_contact_vector_circle(c),
                Collider::Circle(d) => c.get_contact_vector(d),
            },
        }
    }

    /// Refreshes the world-space geometry from the owning body's pose; must
    /// run before any intersection query of the same tick.
    pub fn update(&mut self, pose: &Pose)
        requires
            old(self).well_formed(),
            pose.well_formed(),
        ensures
            final(self).well_formed(),
            refreshed(*old(self), *final(self), *pose),
    {
        match self {
            Collider::Polygon(polygon) => {
                polygon.update_vertices(pose);
            },
            Collider::Circle(circle) => {
                circle.update_center(pose);
            },
        }
    }

    /// What `width` returns: the local bounding-box width for a polygon, the
    /// diameter for a circle.
    pub open spec fn spec_width(self) -> int {
        match self {
            Collider::Polygon(p) => p.width as int,
            Collider::Circle(c) => 2 * c.radius as int,
        }
    }

    /// What `height` returns: the local bounding-box height for a polygon,
    /// the diameter for a circle.
    pub open spec fn spec_height(self) -> int {
        match self {
            Collider::Polygon(p) => p.height as int,
            Collider::Circle(c) => 2 * c.radius as int,
        }
    }

    pub fn width(&self) -> (r: i64)
        requires
            self.well_formed(),
        ensures
            r == self.spec_width(),
    {
        match self {
            Collider::Polygon(polygon) => polygon.width,
            Collider::Circle(circle) => 2 * circle.radius,
        }
    }

    pub fn height(&self) -> (r: i64)
        requires
            self.well_formed(),
        ensures
            r == self.spec_height(),
    {
        match self {
            Collider::Polygon(polygon) => polygon.height,
            Collider::Circle(circle) => 2 * circle.radius,
        }
    }
}

/// Per-tick geometry refresh for every active body: each collider recomputes
/// its world-space cache from its owner's pose, before the tick's
/// intersection sweep runs.
pub fn update_colliders(colliders: &mut Vec<Collider>, poses: &Vec<Pose>)
    requires
        old(colliders)@.len() == poses@.len(),
        forall|i: int| 0 <= i < old(colliders)@.len() ==> (#[trigger] old(colliders)@[i]).well_formed(),
        forall|i: int| 0 <= i < poses@.len() ==> (#[trigger] poses@[i]).well_formed(),
    ensures
        final(colliders)@.len() == old(colliders)@.len(),
        forall|i: int|
            0 <= i < final(colliders)@.len() ==> (#[trigger] final(colliders)@[i]).well_formed()
                && refreshed(old(colliders)@[i], final(colliders)@[i], poses@[i]),
{
    let n = colliders.len();
    let mut i: usize = 0;
    while i < n
        invariant
            0 <= i <= n,
            n == colliders@.len(),
            colliders@.len() == old(colliders)@.len(),
            old(colliders)@.len() == poses@.len(),
            forall|k: int|
                0 <= k < old(colliders)@.len() ==> (#[trigger] old(colliders)@[k]).well_formed(),
            forall|k: int| 0 <= k < poses@.len() ==> (#[trigger] poses@[k]).well_formed(),
            forall|k: int| i <= k < colliders@.len() ==> colliders@[k] == old(colliders)@[k],
            forall|k: int|
                0 <= k < i ==> (#[trigger] colliders@[k]).well_formed() && refreshed(
                    old(colliders)@[k],
                    colliders@[k],
                    poses@[k],
                ),
        decreases n - i,
    {
        let pose = poses[i];
        colliders[i].update(&pose);
        i += 1;
    }
}

/// The polygon-polygon separating-axis verdict does not depend on which
/// polygon is named first: the candidate axes are pooled from both.
proof fn lemma_poly_poly_sym(x: Seq<V2>, y: Seq<V2>)
    ensures
        poly_poly_intersects(x, y) == poly_poly_intersects(y, x),
{
    if poly_poly_intersects(x, y) {
        assert forall|i: int|
            0 <= i < y.len() && !(#[trigger] edge(y, i)).is_zero() implies !sep_axis_poly_poly(
            y,
            x,
            edge(y, i).perp(),
        ) by {
            assert(!sep_axis_poly_poly(x, y, edge(y, i).perp()));
        }
        assert forall|i: int|
            0 <= i < x.len() && !(#[trigger] edge(x, i)).is_zero() implies !sep_axis_poly_poly(
            y,
            x,
            edge(x, i).perp(),
        ) by {
            assert(!sep_axis_poly_poly(x, y, edge(x, i).perp()));
        }
    }
    if poly_poly_intersects(y, x) {
        assert forall|i: int|
            0 <= i < x.len() && !(#[trigger] edge(x, i)).is_zero() implies !sep_axis_poly_poly(
            x,
            y,
            edge(x, i).perp(),
        ) by {
            assert(!sep_axis_poly_poly(y, x, edge(x, i).perp()));
        }
        assert forall|i: int|
            0 <= i < y.len() && !(#[trigger] edge(y, i)).is_zero() implies !sep_axis_poly_poly(
            x,
            y,
            edge(y, i).perp(),
        ) by {
            assert(!sep_axis_poly_poly(y, x, edge(y, i).perp()));
        }
    }
}

/// Intersection testing is symmetric: for every shape pair, testing `a`
/// against `b` answers exactly as testing `b` against `a`.
pub proof fn lemma_intersects_symmetric(a: Collider, b: Collider)
    ensures
        a.spec_intersects(b) == b.spec_intersects(a),
{
    match (a, b) {
        (Collider::Polygon(x), Collider::Polygon(y)) => {
            lemma_poly_poly_sym(x.world_seq(), y.world_seq());
        },
        (Collider::Circle(c), Collider::Circle(d)) => {
            let u = d.center@.sub(c.center@);
            let v = c.center@.sub(d.center@);
            assert(u.normsq() == v.normsq() && (c.radius as int + d.radius as int) * (c.radius
                as int + d.radius as int) == (d.radius as int + c.radius as int) * (d.radius as int
                + c.radius as int)) by (nonlinear_arith)
                requires
                    u.x == -v.x,
                    u.y == -v.y,
            ;
        },
        _ => {},
    }
}

} // verus!
