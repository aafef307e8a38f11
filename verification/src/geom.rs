use vstd::prelude::*;

use crate::vec2::{div_trunc, sqrt_floor, V2};

verus! {

// Specification-level geometry. The executable collision code works on exact
// integer coordinates; these functions state, over mathematical integers, what
// each of its loops computes. Separating-axis comparisons that classically
// divide by an axis length are stated in squared form instead, which preserves
// their outcome exactly: normalising an axis rescales both projections by the
// same positive factor.
/// The directed edge leaving vertex `i`, wrapping around at the end.
pub open spec fn edge(s: Seq<V2>, i: int) -> V2
    recommends
        0 <= i < s.len(),
{
    s[(i + 1) % (s.len() as int)].sub(s[i])
}

/// The successor index used by `edge`, written without the modulo.
pub proof fn lemma_wrap_index(n: int, i: int)
    requires
        0 <= i < n,
    ensures
        (i + 1) % n == if i + 1 == n {
            0int
        } else {
            i + 1
        },
{
    if i + 1 == n {
        vstd::arithmetic::div_mod::lemma_mod_self_0(n);
    } else {
        vstd::arithmetic::div_mod::lemma_small_mod((i + 1) as nat, n as nat);
    }
}

/// Least projection of the first `i` vertices onto `ax`.
pub open spec fn proj_min_upto(s: Seq<V2>, ax: V2, i: int) -> int
    recommends
        1 <= i <= s.len(),
    decreases i,
{
    if i <= 1 {
        s[0].dot(ax)
    } else {
        let m = proj_min_upto(s, ax, i - 1);
        let d = s[i - 1].dot(ax);
        if d < m {
            d
        } else {
            m
        }
    }
}

/// Greatest projection of the first `i` vertices onto `ax`.
pub open spec fn proj_max_upto(s: Seq<V2>, ax: V2, i: int) -> int
    recommends
        1 <= i <= s.len(),
    decreases i,
{
    if i <= 1 {
        s[0].dot(ax)
    } else {
        let m = proj_max_upto(s, ax, i - 1);
        let d = s[i - 1].dot(ax);
        if d > m {
            d
        } else {
            m
        }
    }
}

pub open spec fn proj_min(s: Seq<V2>, ax: V2) -> int {
    proj_min_upto(s, ax, s.len() as int)
}

pub open spec fn proj_max(s: Seq<V2>, ax: V2) -> int {
    proj_max_upto(s, ax, s.len() as int)
}

/// The projections of two vertex sets onto `ax` occupy disjoint intervals;
/// open overlap, so touching intervals count as separated.
pub open spec fn sep_axis_poly_poly(a: Seq<V2>, b: Seq<V2>, ax: V2) -> bool {
    proj_min(a, ax) >= proj_max(b, ax) || proj_min(b, ax) >= proj_max(a, ax)
}

/// `t >= r * sqrt(axis_normsq)`, for non-negative `r`, stated without square
/// roots.
pub open spec fn exceeds_scaled_radius(t: int, r: int, axis_normsq: int) -> bool {
    t >= 0 && t * t >= r * r * axis_normsq
}

/// On axis `ax` the polygon's projection interval and the circle's projection
/// interval `[c·ax - r|ax|, c·ax + r|ax|]` are disjoint.
pub open spec fn sep_axis_poly_circle(p: Seq<V2>, c: V2, r: int, ax: V2) -> bool {
    ||| exceeds_scaled_radius(proj_min(p, ax) - c.dot(ax), r, ax.normsq())
    ||| exceeds_scaled_radius(c.dot(ax) - proj_max(p, ax), r, ax.normsq())
}

/// Separating-axis test for two convex vertex sets: the candidate axes are the
/// outward perpendiculars of both shapes' edges. Axes arising from degenerate
/// (zero-length) edges are skipped rather than treated as separating.
pub open spec fn poly_poly_intersects(a: Seq<V2>, b: Seq<V2>) -> bool {
    &&& forall|i: int|
        0 <= i < a.len() && !(#[trigger] edge(a, i)).is_zero() ==> !sep_axis_poly_poly(
            a,
            b,
            edge(a, i).perp(),
        )
    &&& forall|i: int|
        0 <= i < b.len() && !(#[trigger] edge(b, i)).is_zero() ==> !sep_axis_poly_poly(
            a,
            b,
            edge(b, i).perp(),
        )
}

/// Index of the vertex, among the first `i`, closest to `p`; the earliest wins
/// a tie.
pub open spec fn closest_vertex_upto(s: Seq<V2>, p: V2, i: int) -> int
    recommends
        1 <= i <= s.len(),
    decreases i,
{
    if i <= 1 {
        0
    } else {
        let b = closest_vertex_upto(s, p, i - 1);
        if s[i - 1].sub(p).normsq() < s[b].sub(p).normsq() {
            i - 1
        } else {
            b
        }
    }
}

pub open spec fn closest_vertex_idx(s: Seq<V2>, p: V2) -> int {
    closest_vertex_upto(s, p, s.len() as int)
}

/// Separating-axis test between a convex vertex set and a circle: the
/// candidate axes are the polygon's edge perpendiculars plus the direction
/// from the circle's centre to the polygon's closest vertex. A degenerate
/// extra axis (centre on the closest vertex) is skipped.
pub open spec fn poly_circle_intersects(p: Seq<V2>, c: V2, r: int) -> bool {
    &&& forall|i: int|
        0 <= i < p.len() && !(#[trigger] edge(p, i)).is_zero() ==> !sep_axis_poly_circle(
            p,
            c,
            r,
            edge(p, i).perp(),
        )
    &&& {
        let cv = p[closest_vertex_idx(p, c)];
        cv == c || !sep_axis_poly_circle(p, c, r, cv.sub(c))
    }
}

/// Two circles overlap exactly when their centre distance is strictly below
/// the sum of the radii; touching circles do not intersect.
pub open spec fn circle_circle_intersects(c1: V2, r1: int, c2: V2, r2: int) -> bool {
    c2.sub(c1).normsq() < (r1 + r2) * (r1 + r2)
}

// Contact vectors. These mirror the bounce code's nearest-edge
// approximations; they are directions for velocity reflection, not
// minimum-translation vectors.
/// Squared distance between the edge leaving `b[j]` and the vector `e`,
/// treating both as points.
pub open spec fn edge_pair_dsq(b: Seq<V2>, e: V2, j: int) -> int {
    e.sub(edge(b, j)).normsq()
}

/// Among the first `j` edges of `b`, the index of the one whose edge vector is
/// nearest to `e`; the earliest wins a tie.
pub open spec fn best_edge_upto(b: Seq<V2>, e: V2, j: int) -> int
    recommends
        1 <= j <= b.len(),
    decreases j,
{
    if j <= 1 {
        0
    } else {
        let k = best_edge_upto(b, e, j - 1);
        if edge_pair_dsq(b, e, j - 1) < edge_pair_dsq(b, e, k) {
            j - 1
        } else {
            k
        }
    }
}

pub open spec fn best_edge_idx(b: Seq<V2>, e: V2) -> int {
    best_edge_upto(b, e, b.len() as int)
}

/// The least squared distance from `e` to any edge vector of `b`.
pub open spec fn best_edge_dsq(b: Seq<V2>, e: V2) -> int {
    edge_pair_dsq(b, e, best_edge_idx(b, e))
}

/// Among the first `i` edges of `a`, the index whose edge vector comes
/// nearest to some edge vector of `b`; the earliest wins a tie.
pub open spec fn poly_poly_best_upto(a: Seq<V2>, b: Seq<V2>, i: int) -> int
    recommends
        1 <= i <= a.len(),
    decreases i,
{
    if i <= 1 {
        0
    } else {
        let k = poly_poly_best_upto(a, b, i - 1);
        if best_edge_dsq(b, edge(a, i - 1)) < best_edge_dsq(b, edge(a, k)) {
            i - 1
        } else {
            k
        }
    }
}

/// Contact direction for a polygon–polygon collision: of all edge-vector
/// pairs, one from each polygon, take the pair at the least squared distance
/// and return the second polygon's edge vector.
pub open spec fn poly_poly_contact(a: Seq<V2>, b: Seq<V2>) -> V2 {
    edge(b, best_edge_idx(b, edge(a, poly_poly_best_upto(a, b, a.len() as int))))
}

// Point-to-segment squared distances are rational; they are carried as a
// numerator-denominator pair with a positive denominator.
/// Numerator of the squared distance from point `c` to the segment `[a, b]`.
pub open spec fn seg_dsq_num(c: V2, a: V2, b: V2) -> int {
    let e = b.sub(a);
    let w = c.sub(a);
    let p = w.dot(e);
    let l = e.normsq();
    if l == 0 || p <= 0 {
        w.normsq()
    } else if p >= l {
        c.sub(b).normsq()
    } else {
        w.normsq() * l - p * p
    }
}

/// Denominator of the squared distance from point `c` to the segment `[a, b]`.
pub open spec fn seg_dsq_den(c: V2, a: V2, b: V2) -> int {
    let e = b.sub(a);
    let w = c.sub(a);
    let p = w.dot(e);
    let l = e.normsq();
    if l == 0 || p <= 0 || p >= l {
        1
    } else {
        l
    }
}

/// Comparison of two non-negative-denominator rationals.
pub open spec fn rat_lt(n1: int, d1: int, n2: int, d2: int) -> bool {
    n1 * d2 < n2 * d1
}

/// Squared distance, as a rational pair, from `c` to the segment leaving
/// vertex `i` of `p`.
pub open spec fn seg_dsq_of_edge(p: Seq<V2>, c: V2, i: int) -> (int, int) {
    (
        seg_dsq_num(c, p[i], p[(i + 1) % (p.len() as int)]),
        seg_dsq_den(c, p[i], p[(i + 1) % (p.len() as int)]),
    )
}

/// Among the first `i` edges of `p`, the index of the segment closest to `c`;
/// the earliest wins a tie.
pub open spec fn closest_segment_upto(p: Seq<V2>, c: V2, i: int) -> int
    recommends
        1 <= i <= p.len(),
    decreases i,
{
    if i <= 1 {
        0
    } else {
        let k = closest_segment_upto(p, c, i - 1);
        let cur = seg_dsq_of_edge(p, c, i - 1);
        let best = seg_dsq_of_edge(p, c, k);
        if rat_lt(cur.0, cur.1, best.0, best.1) {
            i - 1
        } else {
            k
        }
    }
}

pub open spec fn closest_segment_idx(p: Seq<V2>, c: V2) -> int {
    closest_segment_upto(p, c, p.len() as int)
}

/// Contact direction for a polygon–circle collision: the edge vector of the
/// polygon edge whose segment lies closest to the circle's centre.
pub open spec fn poly_circle_contact(p: Seq<V2>, c: V2) -> V2 {
    edge(p, closest_segment_idx(p, c))
}

/// Contact direction for a circle–circle collision: the perpendicular of the
/// point reached from the first centre by stepping one radius toward the
/// second centre — a tangent-style direction evaluated at a point, kept
/// exactly as the bounce code computes it. The step direction is scaled by
/// the rounded-down centre distance; coincident centres contribute no step.
pub open spec fn circle_circle_contact(c1: V2, r1: int, c2: V2) -> V2 {
    let ab = c2.sub(c1);
    let s = sqrt_floor(ab.normsq());
    let off = if ab.is_zero() {
        V2 { x: 0, y: 0 }
    } else {
        V2 { x: div_trunc(ab.x * r1, s), y: div_trunc(ab.y * r1, s) }
    };
    c1.add(off).perp()
}

} // verus!
