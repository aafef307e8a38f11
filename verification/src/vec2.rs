use vstd::prelude::*;

verus! {

/// Mathematical (unbounded) two-dimensional vector, used by specifications.
pub struct V2 {
    pub x: int,
    pub y: int,
}

impl V2 {
    pub open spec fn add(self, o: V2) -> V2 {
        V2 { x: self.x + o.x, y: self.y + o.y }
    }

    pub open spec fn sub(self, o: V2) -> V2 {
        V2 { x: self.x - o.x, y: self.y - o.y }
    }

    pub open spec fn dot(self, o: V2) -> int {
        self.x * o.x + self.y * o.y
    }

    /// The counter-clockwise perpendicular, the outward axis the collision
    /// tests derive from an edge.
    pub open spec fn perp(self) -> V2 {
        V2 { x: -self.y, y: self.x }
    }

    pub open spec fn normsq(self) -> int {
        self.x * self.x + self.y * self.y
    }

    pub open spec fn is_zero(self) -> bool {
        self.x == 0 && self.y == 0
    }

    pub open spec fn in_range(self, bound: int) -> bool {
        -bound <= self.x <= bound && -bound <= self.y <= bound
    }
}

/// Two-dimensional vector (or point) with exact integer coordinates.
#[derive(Clone, Copy, PartialEq, Eq, Structural, Debug)]
pub struct Vec2I {
    pub x: i64,
    pub y: i64,
}

impl Vec2I {
    pub open spec fn view(self) -> V2 {
        V2 { x: self.x as int, y: self.y as int }
    }

    pub fn new(x: i64, y: i64) -> (r: Vec2I)
        ensures
            r.x == x,
            r.y == y,
    {
        Vec2I { x, y }
    }
}

pub open spec fn iabs(a: int) -> int {
    if a < 0 {
        -a
    } else {
        a
    }
}

/// Quotient of `a` by `b` rounded toward zero, the rounding Rust's own integer
/// division performs; `/` in specifications is Euclidean, so the two differ on
/// negative operands.
pub open spec fn div_trunc(a: int, b: int) -> int {
    if (a < 0) == (b < 0) {
        iabs(a) / iabs(b)
    } else {
        -(iabs(a) / iabs(b))
    }
}

/// Truncated division on machine integers.
pub fn div_trunc_i64(a: i64, b: i64) -> (r: i64)
    requires
        b != 0,
        iabs(a as int) < 0x4000_0000_0000_0000,
        iabs(b as int) < 0x4000_0000_0000_0000,
    ensures
        r == div_trunc(a as int, b as int),
        iabs(r as int) <= iabs(a as int),
{
    let abs_a: u64 = if a >= 0 {
        a as u64
    } else {
        (-a) as u64
    };
    let abs_b: u64 = if b >= 0 {
        b as u64
    } else {
        (-b) as u64
    };
    let q: u64 = abs_a / abs_b;
    proof {
        assert(abs_a == iabs(a as int));
        assert(abs_b == iabs(b as int));
        assert(q == iabs(a as int) / iabs(b as int));
        assert(q * abs_b <= abs_a) by {
            vstd::arithmetic::div_mod::lemma_fundamental_div_mod(abs_a as int, abs_b as int);
        }
        assert(q <= abs_a) by {
            if q > abs_a {
                assert(q * abs_b >= q * 1 == q) by (nonlinear_arith)
                    requires
                        abs_b >= 1,
                        q >= 0,
                ;
            }
        }
    }
    if (a < 0) == (b < 0) {
        q as i64
    } else {
        -(q as i64)
    }
}

/// A product is bounded by the product of the factors' bounds.
pub proof fn lemma_mul_bound(x: int, y: int, bx: int, by: int)
    requires
        iabs(x) <= bx,
        iabs(y) <= by,
    ensures
        iabs(x * y) <= bx * by,
{
    assert(iabs(x * y) <= bx * by) by (nonlinear_arith)
        requires
            iabs(x) <= bx,
            iabs(y) <= by,
    ;
}

/// Dot product of two bounded vectors; the bounds keep the arithmetic inside
/// `i64`.
pub(crate) fn dot_i64(a: Vec2I, b: Vec2I, Ghost(ba): Ghost<int>, Ghost(bb): Ghost<int>) -> (r: i64)
    requires
        0 <= ba,
        0 <= bb,
        a@.in_range(ba),
        b@.in_range(bb),
        ba * bb <= 0x3fff_ffff_ffff_ffff,
    ensures
        r == a@.dot(b@),
        iabs(r as int) <= ba * bb + ba * bb,
{
    proof {
        lemma_mul_bound(a.x as int, b.x as int, ba, bb);
        lemma_mul_bound(a.y as int, b.y as int, ba, bb);
    }
    a.x * b.x + a.y * b.y
}

/// Squared distance between two bounded world-space points.
pub(crate) fn dist_sq_i64(a: Vec2I, b: Vec2I) -> (r: i64)
    requires
        a@.in_range(crate::WORLD_LIMIT as int),
        b@.in_range(crate::WORLD_LIMIT as int),
    ensures
        r == a@.sub(b@).normsq(),
        r >= 0,
{
    let dx: i64 = a.x - b.x;
    let dy: i64 = a.y - b.y;
    proof {
        lemma_mul_bound(dx as int, dx as int, 2 * crate::WORLD_LIMIT, 2 * crate::WORLD_LIMIT);
        lemma_mul_bound(dy as int, dy as int, 2 * crate::WORLD_LIMIT, 2 * crate::WORLD_LIMIT);
        assert(dx as int * dx as int >= 0 && dy as int * dy as int >= 0) by (nonlinear_arith);
    }
    dx * dx + dy * dy
}

/// If `|a| <= k * b`, the truncated quotient of `a` by `b` has magnitude at
/// most `k`.
pub proof fn lemma_div_trunc_bound(a: int, b: int, k: int)
    requires
        b >= 1,
        k >= 0,
        iabs(a) <= k * b,
    ensures
        iabs(div_trunc(a, b)) <= k,
{
    vstd::arithmetic::div_mod::lemma_div_pos_is_pos(iabs(a), b);
    assert(iabs(div_trunc(a, b)) == iabs(a) / b);
    vstd::arithmetic::div_mod::lemma_div_is_ordered(iabs(a), k * b, b);
    vstd::arithmetic::div_mod::lemma_div_multiples_vanish(k, b);
    assert(k * b == b * k) by (nonlinear_arith);
}

/// The integer square root, rounded down, defined for non-negative arguments.
pub open spec fn sqrt_floor(n: int) -> int
    decreases n,
{
    if n <= 0 {
        0
    } else {
        let r = sqrt_floor(n - 1);
        if (r + 1) * (r + 1) <= n {
            r + 1
        } else {
            r
        }
    }
}

pub proof fn lemma_sqrt_floor(n: int)
    requires
        n >= 0,
    ensures
        sqrt_floor(n) >= 0,
        sqrt_floor(n) * sqrt_floor(n) <= n,
        n < (sqrt_floor(n) + 1) * (sqrt_floor(n) + 1),
    decreases n,
{
    if n > 0 {
        lemma_sqrt_floor(n - 1);
        let r = sqrt_floor(n - 1);
        if (r + 1) * (r + 1) <= n {
            assert(n < (r + 2) * (r + 2)) by (nonlinear_arith)
                requires
                    r >= 0,
                    n - 1 < (r + 1) * (r + 1),
            ;
        }
    }
}

/// Squares are monotone over the non-negative integers.
pub proof fn lemma_square_ordered(a: int, b: int)
    requires
        0 <= a <= b,
    ensures
        a * a <= b * b,
{
    assert(a * a <= b * b) by (nonlinear_arith)
        requires
            0 <= a <= b,
    ;
}

/// Integer square root by bisection.
pub fn isqrt_u64(n: u64) -> (r: u64)
    requires
        n < 0x4000_0000_0000_0000,
    ensures
        r == sqrt_floor(n as int),
        r * r <= n,
        n < (r + 1) * (r + 1),
        r < 0x8000_0000,
        r == 0 ==> n == 0,
{
    let mut lo: u64 = 0;
    let mut hi: u64 = 0x8000_0000;
    proof {
        assert(hi * hi > n);
    }
    while lo + 1 < hi
        invariant
            lo < hi <= 0x8000_0000,
            lo * lo <= n,
            hi * hi > n,
            n < 0x4000_0000_0000_0000,
        decreases hi - lo,
    {
        let mid: u64 = lo + (hi - lo) / 2;
        proof {
            assert(lo < mid < hi);
            assert(mid * mid < 0x4000_0000_0000_0000) by (nonlinear_arith)
                requires
                    mid < 0x8000_0000,
            ;
        }
        if mid * mid <= n {
            lo = mid;
        } else {
            hi = mid;
        }
    }
    proof {
        assert(hi == lo + 1);
        if lo == 0 {
            assert(hi * hi == 1) by (nonlinear_arith)
                requires
                    hi == 1u64,
            ;
        }
        let s = sqrt_floor(n as int);
        lemma_sqrt_floor(n as int);
        if lo < s {
            lemma_square_ordered(lo as int + 1, s);
            assert(false);
        }
        if lo > s {
            lemma_square_ordered(s + 1, lo as int);
            assert(false);
        }
    }
    lo
}

} // verus!

