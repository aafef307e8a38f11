use vstd::prelude::*;

use crate::circle::CircleCollider;
use crate::geom::{
    best_edge_dsq, best_edge_idx, best_edge_upto, closest_segment_upto, closest_vertex_idx,
    closest_vertex_upto, edge, edge_pair_dsq, lemma_wrap_index, poly_circle_contact,
    poly_circle_intersects, poly_poly_best_upto, poly_poly_contact, poly_poly_intersects,
    proj_max, proj_max_upto, proj_min, proj_min_upto, rat_lt, sep_axis_poly_circle,
    sep_axis_poly_poly,
};
use crate::pose::Pose;
use crate::vec2::{dot_i64, iabs, lemma_mul_bound, V2, Vec2I};
use crate::{ConfigurationError, COORD_LIMIT, NORMAL_LIMIT, PROJ_LIMIT, WORLD_LIMIT};

verus! {

/// The horizontal unit axis, used to state a bounding-box width.
pub open spec fn axis_x() -> V2 {
    V2 { x: 1, y: 0 }
}

/// The vertical unit axis, used to state a bounding-box height.
pub open spec fn axis_y() -> V2 {
    V2 { x: 0, y: 1 }
}

/// Projections onto the unit axes read off the coordinates.
pub proof fn lemma_axis_dots(v: V2)
    ensures
        v.dot(axis_x()) == v.x,
        v.dot(axis_y()) == v.y,
{
    assert(v.x * 1 + v.y * 0 == v.x) by (nonlinear_arith);
    assert(v.x * 0 + v.y * 1 == v.y) by (nonlinear_arith);
}

/// A convex polygon: local-space vertices fixed at construction, plus a
/// world-space copy that is recomputed from the owning body's pose each tick
/// and is stale until refreshed.
#[derive(Clone, Debug)]
pub struct PolygonCollider {
    pub relative_vertices: Vec<Vec2I>,
    pub vertices: Vec<Vec2I>,
    pub width: i64,
    pub height: i64,
}

impl PolygonCollider {
    /// The local-space vertices as mathematical points.
    pub open spec fn rel_seq(self) -> Seq<V2> {
        self.relative_vertices@.map_values(|v: Vec2I| v@)
    }

    /// The cached world-space vertices as mathematical points.
    pub open spec fn world_seq(self) -> Seq<V2> {
        self.vertices@.map_values(|v: Vec2I| v@)
    }

    pub open spec fn well_formed(self) -> bool {
        &&& self.relative_vertices@.len() >= 3
        &&& self.vertices@.len() == self.relative_vertices@.len()
        &&& forall|i: int|
            0 <= i < self.rel_seq().len() ==> (#[trigger] self.rel_seq()[i]).in_range(
                COORD_LIMIT as int,
            )
        &&& forall|i: int|
            0 <= i < self.world_seq().len() ==> (#[trigger] self.world_seq()[i]).in_range(
                WORLD_LIMIT as int,
            )
        &&& forall|i: int|
            0 <= i < self.rel_seq().len() ==> !(#[trigger] edge(self.rel_seq(), i)).is_zero()
    }

    /// Builds a polygon from its local-space vertices, with the world-space
    /// copy initially equal to them. Construction fails fast on degenerate
    /// input: fewer than three vertices, or a zero-length edge, would later
    /// yield degenerate separating axes.
    pub fn new(vertices: Vec<Vec2I>) -> (r: Result<PolygonCollider, ConfigurationError>)
        requires
            forall|i: int|
                0 <= i < vertices@.len() ==> (#[trigger] vertices@[i])@.in_range(COORD_LIMIT as int),
        ensures
            ({
                let s = vertices@.map_values(|v: Vec2I| v@);
                match r {
                    Ok(p) => {
                        &&& vertices@.len() >= 3
                        &&& forall|i: int|
                            0 <= i < s.len() ==> !(#[trigger] edge(s, i)).is_zero()
                        &&& p.well_formed()
                        &&& p.relative_vertices@ == vertices@
                        &&& p.vertices@ == vertices@
                        &&& p.width == proj_max(s, axis_x()) - proj_min(s, axis_x())
                        &&& p.height == proj_max(s, axis_y()) - proj_min(s, axis_y())
                    },
                    Err(e) => {
                        &&& (e == ConfigurationError::TooFewVertices <==> vertices@.len() < 3)
                        &&& (e == ConfigurationError::ZeroLengthEdge <==> vertices@.len() >= 3
                            && exists|i: int|
                            0 <= i < s.len() && (#[trigger] edge(s, i)).is_zero())
                    },
                }
            }),
    {
        let ghost s = vertices@.map_values(|v: Vec2I| v@);
        let n = vertices.len();
        if n < 3 {
            return Err(ConfigurationError::TooFewVertices);
        }
        let mut i: usize = 0;
        while i < n
            invariant
                0 <= i <= n,
                n == vertices@.len(),
                3 <= n,
                s == vertices@.map_values(|v: Vec2I| v@),
                forall|k: int| 0 <= k < i ==> !(#[trigger] edge(s, k)).is_zero(),
            decreases n - i,
        {
            let j: usize = if i + 1 == n {
                0
            } else {
                i + 1
            };
            proof {
                lemma_wrap_index(n as int, i as int);
            }
            if vertices[i].x == vertices[j].x && vertices[i].y == vertices[j].y {
                assert(edge(s, i as int).is_zero());
                return Err(ConfigurationError::ZeroLengthEdge);
            }
            i += 1;
        }
        proof {
            assert(s[0] == vertices@[0]@);
            lemma_axis_dots(s[0]);
        }
        let mut min_x: i64 = vertices[0].x;
        let mut max_x: i64 = vertices[0].x;
        let mut min_y: i64 = vertices[0].y;
        let mut max_y: i64 = vertices[0].y;
        let mut k: usize = 1;
        while k < n
            invariant
                1 <= k <= n,
                n == vertices@.len(),
                3 <= n,
                s == vertices@.map_values(|v: Vec2I| v@),
                forall|i: int|
                    0 <= i < vertices@.len() ==> (#[trigger] vertices@[i])@.in_range(
                        COORD_LIMIT as int,
                    ),
                min_x == proj_min_upto(s, axis_x(), k as int),
                max_x == proj_max_upto(s, axis_x(), k as int),
                min_y == proj_min_upto(s, axis_y(), k as int),
                max_y == proj_max_upto(s, axis_y(), k as int),
                -COORD_LIMIT <= min_x <= COORD_LIMIT,
                -COORD_LIMIT <= max_x <= COORD_LIMIT,
                -COORD_LIMIT <= min_y <= COORD_LIMIT,
                -COORD_LIMIT <= max_y <= COORD_LIMIT,
            decreases n - k,
        {
            proof {
                assert(s[k as int] == vertices@[k as int]@);
                lemma_axis_dots(s[k as int]);
            }
            let v = vertices[k];
            if v.x < min_x {
                min_x = v.x;
            }
            if v.x > max_x {
                max_x = v.x;
            }
            if v.y < min_y {
                min_y = v.y;
            }
            if v.y > max_y {
                max_y = v.y;
            }
            k += 1;
        }
        let absolute_vertices = vertices.clone();
        proof {
            assert(absolute_vertices@ =~= vertices@);
        }
        Ok(
            PolygonCollider {
                relative_vertices: vertices,
                vertices: absolute_vertices,
                width: max_x - min_x,
                height: max_y - min_y,
            },
        )
    }

    /// Recomputes the world-space vertices from the local ones and the given
    /// pose. Must run before any intersection query of the same tick; stale
    /// geometry yields stale answers.
    pub fn update_vertices(&mut self, pose: &Pose)
        requires
            old(self).well_formed(),
            pose.well_formed(),
        ensures
            final(self).well_formed(),
            final(self).relative_vertices == old(self).relative_vertices,
            final(self).width == old(self).width,
            final(self).height == old(self).height,
            final(self).vertices@.len() == old(self).vertices@.len(),
            forall|i: int|
                0 <= i < final(self).world_seq().len() ==> final(self).world_seq()[i]
                    == pose.apply_spec(#[trigger] old(self).rel_seq()[i]),
    {
        let n = self.relative_vertices.len();
        let mut new_vertices: Vec<Vec2I> = Vec::new();
        let mut i: usize = 0;
        while i < n
            invariant
                0 <= i <= n,
                *self == *old(self),
                old(self).well_formed(),
                pose.well_formed(),
                n == self.relative_vertices@.len(),
                new_vertices@.len() == i,
                forall|k: int|
                    0 <= k < i ==> (#[trigger] new_vertices@[k])@ == pose.apply_spec(
                        old(self).rel_seq()[k],
                    ),
                forall|k: int|
                    0 <= k < i ==> (#[trigger] new_vertices@[k])@.in_range(WORLD_LIMIT as int),
            decreases n - i,
        {
            proof {
                assert(old(self).rel_seq()[i as int] == self.relative_vertices@[i as int]@);
            }
            let w = pose.apply(self.relative_vertices[i]);
            new_vertices.push(w);
            i += 1;
        }
        let ghost nv = new_vertices@;
        self.vertices = new_vertices;
        proof {
            assert forall|k: int| 0 <= k < self.world_seq().len() implies (
            #[trigger] self.world_seq()[k]).in_range(WORLD_LIMIT as int) && self.world_seq()[k]
                == pose.apply_spec(old(self).rel_seq()[k]) by {
                assert(self.world_seq()[k] == nv[k]@);
            }
            assert forall|k: int| 0 <= k < self.rel_seq().len() implies (
            #[trigger] self.rel_seq()[k]).in_range(COORD_LIMIT as int) && !edge(
                self.rel_seq(),
                k,
            ).is_zero() by {
                assert(self.rel_seq() == old(self).rel_seq());
            }
        }
    }

    /// Projects the world-space vertices onto `axis`, returning the least and
    /// greatest signed projection.
    pub fn project_vertices(&self, axis: Vec2I) -> (r: (i64, i64))
        requires
            self.well_formed(),
            axis@.in_range(NORMAL_LIMIT as int),
        ensures
            r.0 == proj_min(self.world_seq(), axis@),
            r.1 == proj_max(self.world_seq(), axis@),
            iabs(r.0 as int) <= PROJ_LIMIT,
            iabs(r.1 as int) <= PROJ_LIMIT,
    {
        let ghost s = self.world_seq();
        let n = self.vertices.len();
        proof {
            assert(s[0] == self.vertices@[0]@);
        }
        let mut mn: i64 = dot_i64(
            self.vertices[0],
            axis,
            Ghost(196608int),
            Ghost(393216int),
        );
        let mut mx: i64 = mn;
        let mut i: usize = 1;
        while i < n
            invariant
                1 <= i <= n,
                n == s.len(),
                s == self.world_seq(),
                self.well_formed(),
                axis@.in_range(NORMAL_LIMIT as int),
                mn == proj_min_upto(s, axis@, i as int),
                mx == proj_max_upto(s, axis@, i as int),
                iabs(mn as int) <= PROJ_LIMIT,
                iabs(mx as int) <= PROJ_LIMIT,
            decreases n - i,
        {
            proof {
                assert(s[i as int] == self.vertices@[i as int]@);
            }
            let d = dot_i64(
                self.vertices[i],
                axis,
                Ghost(196608int),
                Ghost(393216int),
            );
            if d < mn {
                mn = d;
            }
            if d > mx {
                mx = d;
            }
            i += 1;
        }
        (mn, mx)
    }

    /// The cached world-space vertex closest to `point`; the earliest wins a
    /// tie.
    pub fn get_closest_vertex(&self, point: Vec2I) -> (r: Vec2I)
        requires
            self.well_formed(),
            point@.in_range(WORLD_LIMIT as int),
        ensures
            r@ == self.world_seq()[closest_vertex_idx(self.world_seq(), point@)],
            r@.in_range(WORLD_LIMIT as int),
    {
        let ghost s = self.world_seq();
        let n = self.vertices.len();
        let mut best: usize = 0;
        proof {
            assert(s[0] == self.vertices@[0]@);
        }
        let mut best_d: i64 = crate::vec2::dist_sq_i64(self.vertices[0], point);
        let mut i: usize = 1;
        while i < n
            invariant
                1 <= i <= n,
                best < i,
                n == s.len(),
                s == self.world_seq(),
                self.well_formed(),
                point@.in_range(WORLD_LIMIT as int),
                best == closest_vertex_upto(s, point@, i as int),
                best_d == s[best as int].sub(point@).normsq(),
            decreases n - i,
        {
            proof {
                assert(s[i as int] == self.vertices@[i as int]@);
            }
            let d = crate::vec2::dist_sq_i64(self.vertices[i], point);
            if d < best_d {
                best = i;
                best_d = d;
            }
            i += 1;
        }
        self.vertices[best]
    }
    /// Separating-axis test against another polygon: the candidate axes are
    /// the edge perpendiculars of both polygons; axes of zero-length edges
    /// are skipped. Requires fresh world-space geometry on both sides.
    pub fn intersects(&self, other: &PolygonCollider) -> (r: bool)
        requires
            self.well_formed(),
            other.well_formed(),
        ensures
            r == poly_poly_intersects(self.world_seq(), other.world_seq()),
    {
        let ghost a = self.world_seq();
        let ghost b = other.world_seq();
        let n = self.vertices.len();
        let mut i: usize = 0;
        while i < n
            invariant
                0 <= i <= n,
                n == a.len(),
                a == self.world_seq(),
                b == other.world_seq(),
                self.well_formed(),
                other.well_formed(),
                forall|k: int|
                    0 <= k < i && !(#[trigger] edge(a, k)).is_zero() ==> !sep_axis_poly_poly(
                        a,
                        b,
                        edge(a, k).perp(),
                    ),
            decreases n - i,
        {
            let j: usize = if i + 1 == n {
                0
            } else {
                i + 1
            };
            proof {
                lemma_wrap_index(n as int, i as int);
                assert(a[i as int] == self.vertices@[i as int]@);
                assert(a[j as int] == self.vertices@[j as int]@);
            }
            let v = self.vertices[i];
            let w = self.vertices[j];
            let ex: i64 = w.x - v.x;
            let ey: i64 = w.y - v.y;
            if !(ex == 0 && ey == 0) {
                let axis = Vec2I { x: -ey, y: ex };
                proof {
                    assert(axis@ == edge(a, i as int).perp());
                }
                let (min_a, max_a) = self.project_vertices(axis);
                let (min_b, max_b) = other.project_vertices(axis);
                if min_a >= max_b || min_b >= max_a {
                    proof {
                        assert(sep_axis_poly_poly(a, b, edge(a, i as int).perp()));
                    }
                    return false;
                }
            }
            i += 1;
        }
        let m = other.vertices.len();
        let mut i2: usize = 0;
        while i2 < m
            invariant
                0 <= i2 <= m,
                m == b.len(),
                a == self.world_seq(),
                b == other.world_seq(),
                self.well_formed(),
                other.well_formed(),
                forall|k: int|
                    0 <= k < a.len() && !(#[trigger] edge(a, k)).is_zero() ==> !sep_axis_poly_poly(
                        a,
                        b,
                        edge(a, k).perp(),
                    ),
                forall|k: int|
                    0 <= k < i2 && !(#[trigger] edge(b, k)).is_zero() ==> !sep_axis_poly_poly(
                        a,
                        b,
                        edge(b, k).perp(),
                    ),
            decreases m - i2,
        {
            let j: usize = if i2 + 1 == m {
                0
            } else {
                i2 + 1
            };
            proof {
                lemma_wrap_index(m as int, i2 as int);
                assert(b[i2 as int] == other.vertices@[i2 as int]@);
                assert(b[j as int] == other.vertices@[j as int]@);
            }
            let v = other.vertices[i2];
            let w = other.vertices[j];
            let ex: i64 = w.x - v.x;
            let ey: i64 = w.y - v.y;
            if !(ex == 0 && ey == 0) {
                let axis = Vec2I { x: -ey, y: ex };
                proof {
                    assert(axis@ == edge(b, i2 as int).perp());
                }
                let (min_a, max_a) = self.project_vertices(axis);
                let (min_b, max_b) = other.project_vertices(axis);
                if min_a >= max_b || min_b >= max_a {
                    proof {
                        assert(sep_axis_poly_poly(a, b, edge(b, i2 as int).perp()));
                    }
                    return false;
                }
            }
            i2 += 1;
        }
        true
    }

    /// Whether the polygon's projection interval and the circle's projection
    /// interval are disjoint on the given axis.
    fn circle_axis_sep(&self, circle: &CircleCollider, axis: Vec2I) -> (r: bool)
        requires
            self.well_formed(),
            circle.well_formed(),
            axis@.in_range(NORMAL_LIMIT as int),
        ensures
            r == sep_axis_poly_circle(
                self.world_seq(),
                circle.center@,
                circle.radius as int,
                axis@,
            ),
    {
        let (mn, mx) = self.project_vertices(axis);
        let d = dot_i64(circle.center, axis, Ghost(65536int), Ghost(393216int));
        proof {
            lemma_mul_bound(axis.x as int, axis.x as int, 393216, 393216);
            lemma_mul_bound(axis.y as int, axis.y as int, 393216, 393216);
            assert(axis.x as int * axis.x as int >= 0 && axis.y as int * axis.y as int >= 0)
                by (nonlinear_arith);
        }
        let asq: i64 = axis.x * axis.x + axis.y * axis.y;
        let t1: i64 = mn - d;
        let t2: i64 = d - mx;
        exceeds_scaled(t1, circle.radius, asq) || exceeds_scaled(t2, circle.radius, asq)
    }

    /// Separating-axis test against a circle: the polygon's edge
    /// perpendiculars plus the axis from the circle's centre to the closest
    /// polygon vertex; degenerate axes are skipped. Requires fresh
    /// world-space geometry on both sides.
    pub fn intersects_circle(&self, circle: &CircleCollider) -> (r: bool)
        requires
            self.well_formed(),
            circle.well_formed(),
        ensures
            r == poly_circle_intersects(self.world_seq(), circle.center@, circle.radius as int),
    {
        let ghost s = self.world_seq();
        let n = self.vertices.len();
        let mut i: usize = 0;
        while i < n
            invariant
                0 <= i <= n,
                n == s.len(),
                s == self.world_seq(),
                self.well_formed(),
                circle.well_formed(),
                forall|k: int|
                    0 <= k < i && !(#[trigger] edge(s, k)).is_zero() ==> !sep_axis_poly_circle(
                        s,
                        circle.center@,
                        circle.radius as int,
                        edge(s, k).perp(),
                    ),
            decreases n - i,
        {
            let j: usize = if i + 1 == n {
                0
            } else {
                i + 1
            };
            proof {
                lemma_wrap_index(n as int, i as int);
                assert(s[i as int] == self.vertices@[i as int]@);
                assert(s[j as int] == self.vertices@[j as int]@);
            }
            let v = self.vertices[i];
            let w = self.vertices[j];
            let ex: i64 = w.x - v.x;
            let ey: i64 = w.y - v.y;
            if !(ex == 0 && ey == 0) {
                let axis = Vec2I { x: -ey, y: ex };
                proof {
                    assert(axis@ == edge(s, i as int).perp());
                }
                if self.circle_axis_sep(circle, axis) {
                    return false;
                }
            }
            i += 1;
        }
        let closest = self.get_closest_vertex(circle.center);
        if closest.x == circle.center.x && closest.y == circle.center.y {
            return true;
        }
        let axis = Vec2I { x: closest.x - circle.center.x, y: closest.y - circle.center.y };
        proof {
            assert(axis@ == s[closest_vertex_idx(s, circle.center@)].sub(circle.center@));
        }
        if self.circle_axis_sep(circle, axis) {
            return false;
        }
        true
    }
}

impl PolygonCollider {
    /// Of all edge vectors of `polygon`, the one nearest, as a point, to the
    /// vector of the segment `[a, b]`, together with that least squared
    /// distance; the earliest edge wins a tie.
    pub fn get_point_segment_distance(&self, a: &Vec2I, b: &Vec2I, polygon: &PolygonCollider) -> (r:
        (Vec2I, i64))
        requires
            polygon.well_formed(),
            a@.in_range(WORLD_LIMIT as int),
            b@.in_range(WORLD_LIMIT as int),
        ensures
            r.0@ == edge(polygon.world_seq(), best_edge_idx(polygon.world_seq(), b@.sub(a@))),
            r.1 == best_edge_dsq(polygon.world_seq(), b@.sub(a@)),
            r.0@.in_range(NORMAL_LIMIT as int),
    {
        let ghost pb = polygon.world_seq();
        let ghost e = b@.sub(a@);
        let ex: i64 = b.x - a.x;
        let ey: i64 = b.y - a.y;
        let m = polygon.vertices.len();
        let mut bj: usize = 0;
        let mut bvx: i64 = 0;
        let mut bvy: i64 = 0;
        let mut bd: i64 = 0;
        let mut j: usize = 0;
        while j < m
            invariant
                0 <= j <= m,
                m == pb.len(),
                pb == polygon.world_seq(),
                polygon.well_formed(),
                a@.in_range(WORLD_LIMIT as int),
                b@.in_range(WORLD_LIMIT as int),
                e == b@.sub(a@),
                ex == e.x,
                ey == e.y,
                j > 0 ==> bj == best_edge_upto(pb, e, j as int),
                j > 0 ==> bd == edge_pair_dsq(pb, e, bj as int),
                j > 0 ==> (Vec2I { x: bvx, y: bvy })@ == edge(pb, bj as int),
                j > 0 ==> bj < j,
            decreases m - j,
        {
            let jn: usize = if j + 1 == m {
                0
            } else {
                j + 1
            };
            proof {
                lemma_wrap_index(m as int, j as int);
                assert(pb[j as int] == polygon.vertices@[j as int]@);
                assert(pb[jn as int] == polygon.vertices@[jn as int]@);
            }
            let v = polygon.vertices[j];
            let w = polygon.vertices[jn];
            let ox: i64 = w.x - v.x;
            let oy: i64 = w.y - v.y;
            let dx: i64 = ex - ox;
            let dy: i64 = ey - oy;
            proof {
                lemma_mul_bound(dx as int, dx as int, 786432, 786432);
                lemma_mul_bound(dy as int, dy as int, 786432, 786432);
                assert(dx as int * dx as int >= 0 && dy as int * dy as int >= 0)
                    by (nonlinear_arith);
            }
            let d: i64 = dx * dx + dy * dy;
            proof {
                assert((Vec2I { x: ox, y: oy })@ == edge(pb, j as int));
                assert(d == edge_pair_dsq(pb, e, j as int));
            }
            if j == 0 || d < bd {
                bj = j;
                bd = d;
                bvx = ox;
                bvy = oy;
            }
            j += 1;
        }
        (Vec2I { x: bvx, y: bvy }, bd)
    }

    /// Contact direction against another polygon: the other polygon's edge
    /// vector from the edge-vector pair, one edge from each polygon, at the
    /// least squared distance — a nearest-edge approximation, not a
    /// minimum-translation vector.
    pub fn get_contact_vector(&self, other: &PolygonCollider) -> (r: Vec2I)
        requires
            self.well_formed(),
            other.well_formed(),
        ensures
            r@ == poly_poly_contact(self.world_seq(), other.world_seq()),
            r@.in_range(NORMAL_LIMIT as int),
    {
        let ghost a = self.world_seq();
        let ghost b = other.world_seq();
        let n = self.vertices.len();
        let mut bi: usize = 0;
        let mut bvec = Vec2I { x: 0, y: 0 };
        let mut bd: i64 = 0;
        let mut i: usize = 0;
        while i < n
            invariant
                0 <= i <= n,
                n == a.len(),
                a == self.world_seq(),
                b == other.world_seq(),
                self.well_formed(),
                other.well_formed(),
                i > 0 ==> bi == poly_poly_best_upto(a, b, i as int),
                i > 0 ==> bd == best_edge_dsq(b, edge(a, bi as int)),
                i > 0 ==> bvec@ == edge(b, best_edge_idx(b, edge(a, bi as int))),
                i > 0 ==> bvec@.in_range(NORMAL_LIMIT as int),
                i > 0 ==> bi < i,
            decreases n - i,
        {
            let j: usize = if i + 1 == n {
                0
            } else {
                i + 1
            };
            proof {
                lemma_wrap_index(n as int, i as int);
                assert(a[i as int] == self.vertices@[i as int]@);
                assert(a[j as int] == self.vertices@[j as int]@);
            }
            let v = self.vertices[i];
            let w = self.vertices[j];
            let (vec_i, d_i) = self.get_point_segment_distance(&v, &w, other);
            proof {
                assert(w@.sub(v@) == edge(a, i as int));
            }
            if i == 0 || d_i < bd {
                bi = i;
                bd = d_i;
                bvec = vec_i;
            }
            i += 1;
        }
        bvec
    }

    /// Contact direction against a circle: the edge vector of the polygon
    /// edge whose segment lies closest to the circle's centre.
    pub fn get_contact_vector_circle(&self, circle: &CircleCollider) -> (r: Vec2I)
        requires
            self.well_formed(),
            circle.well_formed(),
        ensures
            r@ == poly_circle_contact(self.world_seq(), circle.center@),
            r@.in_range(NORMAL_LIMIT as int),
    {
        let ghost s = self.world_seq();
        let ghost c = circle.center@;
        let n = self.vertices.len();
        let mut bi: usize = 0;
        let mut bvec = Vec2I { x: 0, y: 0 };
        let mut bnum: i128 = 0;
        let mut bden: i64 = 1;
        let mut i: usize = 0;
        while i < n
            invariant
                0 <= i <= n,
                n == s.len(),
                s == self.world_seq(),
                c == circle.center@,
                self.well_formed(),
                circle.well_formed(),
                i > 0 ==> bi == closest_segment_upto(s, c, i as int),
                i > 0 ==> (bnum as int, bden as int) == crate::geom::seg_dsq_of_edge(
                    s,
                    c,
                    bi as int,
                ),
                i > 0 ==> bvec@ == edge(s, bi as int),
                i > 0 ==> bvec@.in_range(NORMAL_LIMIT as int),
                i > 0 ==> 1 <= bden <= 0x80_0000_0000,
                i > 0 ==> iabs(bnum as int) <= 0x8000_0000_0000_0000_0000,
                i > 0 ==> bi < i,
            decreases n - i,
        {
            let j: usize = if i + 1 == n {
                0
            } else {
                i + 1
            };
            proof {
                lemma_wrap_index(n as int, i as int);
                assert(s[i as int] == self.vertices@[i as int]@);
                assert(s[j as int] == self.vertices@[j as int]@);
            }
            let v = self.vertices[i];
            let w = self.vertices[j];
            let (num_i, den_i) = circle.get_point_segment_distance(v, w);
            let take: bool;
            if i == 0 {
                take = true;
            } else {
                proof {
                    lemma_mul_bound(num_i as int, bden as int, 0x8000_0000_0000_0000_0000, 0x80_0000_0000);
                    lemma_mul_bound(bnum as int, den_i as int, 0x8000_0000_0000_0000_0000, 0x80_0000_0000);
                }
                take = num_i * (bden as i128) < bnum * (den_i as i128);
                proof {
                    assert(take == rat_lt(num_i as int, den_i as int, bnum as int, bden as int));
                }
            }
            if take {
                bi = i;
                bnum = num_i;
                bden = den_i;
                bvec = Vec2I { x: w.x - v.x, y: w.y - v.y };
            }
            i += 1;
        }
        bvec
    }
}

/// `t >= r * sqrt(asq)` for non-negative `r` and `asq`, decided exactly in
/// squared form.
fn exceeds_scaled(t: i64, r: i64, asq: i64) -> (res: bool)
    requires
        iabs(t as int) <= 0x400_0000_0000,
        0 <= r <= COORD_LIMIT,
        0 <= asq <= 0x400_0000_0000,
    ensures
        res == crate::geom::exceeds_scaled_radius(t as int, r as int, asq as int),
{
    if t < 0 {
        return false;
    }
    proof {
        lemma_mul_bound(t as int, t as int, 0x400_0000_0000, 0x400_0000_0000);
        lemma_mul_bound(r as int, r as int, 65536, 65536);
    }
    let t2: i128 = (t as i128) * (t as i128);
    let rr: i128 = (r as i128) * (r as i128);
    proof {
        lemma_mul_bound(rr as int, asq as int, 0x1_0000_0000, 0x400_0000_0000);
    }
    let rhs: i128 = rr * (asq as i128);
    t2 >= rhs
}

} // verus!
