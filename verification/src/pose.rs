use vstd::prelude::*;

use crate::vec2::{div_trunc, div_trunc_i64, iabs, lemma_div_trunc_bound, V2, Vec2I};
use crate::{COORD_LIMIT, WORLD_LIMIT};

verus! {

/// A rotation-like linear map with exact rational entries
/// `(cos_num/den, -sin_num/den; sin_num/den, cos_num/den)`.
///
/// Callers quantise whatever angle they need into such a pair; right-angle
/// turns are represented exactly. Both numerators are bounded by the
/// denominator, so the map never enlarges a coordinate beyond the sum of the
/// two input coordinates.
#[derive(Clone, Copy, PartialEq, Eq, Structural, Debug)]
pub struct Rotation {
    pub cos_num: i64,
    pub sin_num: i64,
    pub den: i64,
}

impl Rotation {
    pub open spec fn well_formed(self) -> bool {
        &&& 1 <= self.den <= COORD_LIMIT
        &&& iabs(self.cos_num as int) <= self.den
        &&& iabs(self.sin_num as int) <= self.den
    }

    /// The rotation by zero degrees.
    pub fn identity() -> (r: Rotation)
        ensures
            r.well_formed(),
            r.cos_num == 1 && r.sin_num == 0 && r.den == 1,
    {
        Rotation { cos_num: 1, sin_num: 0, den: 1 }
    }
}

/// A body's pose: a world-space translation together with a rotation.
#[derive(Clone, Copy, PartialEq, Eq, Structural, Debug)]
pub struct Pose {
    pub translation: Vec2I,
    pub rotation: Rotation,
}

impl Pose {
    pub open spec fn well_formed(self) -> bool {
        &&& self.translation@.in_range(COORD_LIMIT as int)
        &&& self.rotation.well_formed()
    }

    /// Where the pose carries a local-space point: rotation first, rounded
    /// toward zero, then translation.
    pub open spec fn apply_spec(self, v: V2) -> V2 {
        let c = self.cos();
        let s = self.sin();
        let d = self.den();
        V2 {
            x: self.translation.x + div_trunc(c * v.x - s * v.y, d),
            y: self.translation.y + div_trunc(s * v.x + c * v.y, d),
        }
    }

    pub open spec fn cos(self) -> int {
        self.rotation.cos_num as int
    }

    pub open spec fn sin(self) -> int {
        self.rotation.sin_num as int
    }

    pub open spec fn den(self) -> int {
        self.rotation.den as int
    }

    pub fn from_translation(t: Vec2I) -> (r: Pose)
        requires
            t@.in_range(COORD_LIMIT as int),
        ensures
            r.well_formed(),
            r.translation == t,
            r.rotation == (Rotation { cos_num: 1i64, sin_num: 0i64, den: 1i64 }),
    {
        Pose { translation: t, rotation: Rotation::identity() }
    }

    /// Carries a bounded local-space point into world space; the result stays
    /// inside the world-coordinate range.
    pub fn apply(&self, v: Vec2I) -> (r: Vec2I)
        requires
            self.well_formed(),
            v@.in_range(COORD_LIMIT as int),
        ensures
            r@ == self.apply_spec(v@),
            r@.in_range(WORLD_LIMIT as int),
    {
        let c: i64 = self.rotation.cos_num;
        let s: i64 = self.rotation.sin_num;
        let d: i64 = self.rotation.den;
        proof {
            assert(iabs(c as int * v.x as int) <= COORD_LIMIT * d && iabs(s as int * v.y as int)
                <= COORD_LIMIT * d && iabs(s as int * v.x as int) <= COORD_LIMIT * d && iabs(
            c as int * v.y as int) <= COORD_LIMIT * d) by (nonlinear_arith)
                requires
                    iabs(c as int) <= d,
                    iabs(s as int) <= d,
                    1 <= d <= COORD_LIMIT,
                    iabs(v.x as int) <= COORD_LIMIT,
                    iabs(v.y as int) <= COORD_LIMIT,
            ;
        }
        let rx_num: i64 = c * v.x - s * v.y;
        let ry_num: i64 = s * v.x + c * v.y;
        proof {
            lemma_div_trunc_bound(rx_num as int, d as int, 2 * COORD_LIMIT);
            lemma_div_trunc_bound(ry_num as int, d as int, 2 * COORD_LIMIT);
        }
        let rx: i64 = self.translation.x + div_trunc_i64(rx_num, d);
        let ry: i64 = self.translation.y + div_trunc_i64(ry_num, d);
        Vec2I { x: rx, y: ry }
    }
}

} // verus!
