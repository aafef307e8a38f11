use vstd::prelude::*;

use crate::geom::{circle_circle_contact, circle_circle_intersects, seg_dsq_den, seg_dsq_num};
use crate::pose::Pose;
use crate::vec2::{
    div_trunc_i64, iabs, isqrt_u64, lemma_mul_bound, lemma_square_ordered, sqrt_floor, Vec2I,
};
use crate::{COORD_LIMIT, NORMAL_LIMIT, WORLD_LIMIT};

verus! {

/// A circle in world space: a positive radius around a cached centre, the
/// centre being the owning body's translation as of the last refresh.
#[derive(Clone, Copy, PartialEq, Eq, Structural, Debug)]
pub struct CircleCollider {
    pub radius: i64,
    pub center: Vec2I,
}

impl CircleCollider {
    pub open spec fn well_formed(self) -> bool {
        &&& 0 < self.radius <= COORD_LIMIT
        &&& self.center@.in_range(COORD_LIMIT as int)
    }

    pub fn new(radius: i64, center: Vec2I) -> (r: CircleCollider)
        requires
            0 < radius <= COORD_LIMIT,
            center@.in_range(COORD_LIMIT as int),
        ensures
            r.well_formed(),
            r.radius == radius,
            r.center == center,
    {
        CircleCollider { radius, center }
    }

    /// Refreshes the cached world-space centre from the owning body's pose.
    pub fn update_center(&mut self, pose: &Pose)
        requires
            old(self).well_formed(),
            pose.well_formed(),
        ensures
            final(self).well_formed(),
            final(self).radius == old(self).radius,
            final(self).center == pose.translation,
    {
        self.center = pose.translation;
    }

    /// Two circles intersect exactly when the distance of their centres is
    /// strictly below the sum of their radii; touching circles do not count.
    pub fn intersects(&self, other: &CircleCollider) -> (r: bool)
        requires
            self.well_formed(),
            other.well_formed(),
        ensures
            r == circle_circle_intersects(
                self.center@,
                self.radius as int,
                other.center@,
                other.radius as int,
            ),
    {
        let dx: i64 = other.center.x - self.center.x;
        let dy: i64 = other.center.y - self.center.y;
        proof {
            lemma_mul_bound(dx as int, dx as int, 2 * COORD_LIMIT, 2 * COORD_LIMIT);
            lemma_mul_bound(dy as int, dy as int, 2 * COORD_LIMIT, 2 * COORD_LIMIT);
        }
        let dist_sq: i64 = dx * dx + dy * dy;
        let radii: i64 = self.radius + other.radius;
        proof {
            lemma_mul_bound(radii as int, radii as int, 2 * COORD_LIMIT, 2 * COORD_LIMIT);
        }
        dist_sq < radii * radii
    }

    /// Squared distance from this circle's centre to the segment `[a, b]`,
    /// exact as a numerator-denominator pair with positive denominator.
    pub fn get_point_segment_distance(&self, a: Vec2I, b: Vec2I) -> (r: (i128, i64))
        requires
            self.well_formed(),
            a@.in_range(WORLD_LIMIT as int),
            b@.in_range(WORLD_LIMIT as int),
        ensures
            r.0 as int == seg_dsq_num(self.center@, a@, b@),
            r.1 as int == seg_dsq_den(self.center@, a@, b@),
            1 <= r.1 <= 0x80_0000_0000,
            iabs(r.0 as int) <= 0x8000_0000_0000_0000_0000,
    {
        let ex: i64 = b.x - a.x;
        let ey: i64 = b.y - a.y;
        let wx: i64 = self.center.x - a.x;
        let wy: i64 = self.center.y - a.y;
        proof {
            lemma_mul_bound(wx as int, wx as int, 4 * COORD_LIMIT, 4 * COORD_LIMIT);
            lemma_mul_bound(wy as int, wy as int, 4 * COORD_LIMIT, 4 * COORD_LIMIT);
            lemma_mul_bound(ex as int, ex as int, 6 * COORD_LIMIT, 6 * COORD_LIMIT);
            lemma_mul_bound(ey as int, ey as int, 6 * COORD_LIMIT, 6 * COORD_LIMIT);
        }
        proof {
            lemma_mul_bound(wx as int, ex as int, 4 * COORD_LIMIT, 6 * COORD_LIMIT);
            lemma_mul_bound(wy as int, ey as int, 4 * COORD_LIMIT, 6 * COORD_LIMIT);
            lemma_mul_bound(ex as int, ex as int, 6 * COORD_LIMIT, 6 * COORD_LIMIT);
            lemma_mul_bound(ey as int, ey as int, 6 * COORD_LIMIT, 6 * COORD_LIMIT);
            lemma_mul_bound(wx as int, wx as int, 4 * COORD_LIMIT, 4 * COORD_LIMIT);
            lemma_mul_bound(wy as int, wy as int, 4 * COORD_LIMIT, 4 * COORD_LIMIT);
        }
        let p: i64 = wx * ex + wy * ey;
        let l: i64 = ex * ex + ey * ey;
        if l == 0 || p <= 0 {
            ((wx * wx + wy * wy) as i128, 1)
        } else if p >= l {
            let ux: i64 = self.center.x - b.x;
            let uy: i64 = self.center.y - b.y;
            proof {
                lemma_mul_bound(ux as int, ux as int, 4 * COORD_LIMIT, 4 * COORD_LIMIT);
                lemma_mul_bound(uy as int, uy as int, 4 * COORD_LIMIT, 4 * COORD_LIMIT);
            }
            ((ux * ux + uy * uy) as i128, 1)
        } else {
            let wsq: i64 = wx * wx + wy * wy;
            proof {
                lemma_mul_bound(wsq as int, l as int, 0x40_0000_0000, 0x80_0000_0000);
                lemma_mul_bound(p as int, p as int, 0x80_0000_0000, 0x80_0000_0000);
            }
            let num: i128 = (wsq as i128) * (l as i128) - (p as i128) * (p as i128);
            (num, l)
        }
    }

    /// Contact direction against another circle: the perpendicular of the
    /// point one radius along the centre line — a tangent-style direction,
    /// kept as the bounce behaviour expects it, not a penetration normal.
    pub fn get_contact_vector(&self, other: &CircleCollider) -> (r: Vec2I)
        requires
            self.well_formed(),
            other.well_formed(),
        ensures
            r@ == circle_circle_contact(self.center@, self.radius as int, other.center@),
            r@.in_range(NORMAL_LIMIT as int),
    {
        let abx: i64 = other.center.x - self.center.x;
        let aby: i64 = other.center.y - self.center.y;
        let px: i64;
        let py: i64;
        if abx == 0 && aby == 0 {
            px = self.center.x;
            py = self.center.y;
        } else {
            proof {
                lemma_mul_bound(abx as int, abx as int, 2 * COORD_LIMIT, 2 * COORD_LIMIT);
                lemma_mul_bound(aby as int, aby as int, 2 * COORD_LIMIT, 2 * COORD_LIMIT);
                assert(abx as int * abx as int >= 0 && aby as int * aby as int >= 0)
                    by (nonlinear_arith);
            }
            let nsq: i64 = abx * abx + aby * aby;
            let s: u64 = isqrt_u64(nsq as u64);
            proof {
                if s == 0 {
                    assert(nsq as u64 == 0);
                    assert(abx as int * abx as int >= 1 || aby as int * aby as int >= 1)
                        by (nonlinear_arith)
                        requires
                            abx != 0 || aby != 0,
                    ;
                    assert(false);
                }
                assert(iabs(abx as int) <= s as int && iabs(aby as int) <= s as int) by {
                    if iabs(abx as int) > s as int {
                        lemma_square_ordered(s as int + 1, iabs(abx as int));
                        assert(iabs(abx as int) * iabs(abx as int) == abx as int * abx as int)
                            by (nonlinear_arith);
                        assert(aby as int * aby as int >= 0) by (nonlinear_arith);
                    }
                    if iabs(aby as int) > s as int {
                        lemma_square_ordered(s as int + 1, iabs(aby as int));
                        assert(iabs(aby as int) * iabs(aby as int) == aby as int * aby as int)
                            by (nonlinear_arith);
                        assert(abx as int * abx as int >= 0) by (nonlinear_arith);
                    }
                }
                lemma_mul_bound(abx as int, self.radius as int, s as int, COORD_LIMIT as int);
                lemma_mul_bound(aby as int, self.radius as int, s as int, COORD_LIMIT as int);
                lemma_mul_bound(
                    abx as int,
                    self.radius as int,
                    2 * COORD_LIMIT,
                    COORD_LIMIT as int,
                );
                lemma_mul_bound(
                    aby as int,
                    self.radius as int,
                    2 * COORD_LIMIT,
                    COORD_LIMIT as int,
                );
            }
            let sx: i64 = s as i64;
            let offx: i64 = div_trunc_i64(abx * self.radius, sx);
            let offy: i64 = div_trunc_i64(aby * self.radius, sx);
            proof {
                crate::vec2::lemma_div_trunc_bound(
                    (abx * self.radius) as int,
                    sx as int,
                    COORD_LIMIT as int,
                );
                crate::vec2::lemma_div_trunc_bound(
                    (aby * self.radius) as int,
                    sx as int,
                    COORD_LIMIT as int,
                );
                assert(sx as int == sqrt_floor((abx as int * abx as int) + (aby as int * aby
                    as int)));
            }
            px = self.center.x + offx;
            py = self.center.y + offy;
        }
        Vec2I { x: -py, y: px }
    }
}

} // verus!
