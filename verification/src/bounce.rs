use vstd::prelude::*;

use crate::collider::Collider;
use crate::vec2::{div_trunc, div_trunc_i64, iabs, lemma_mul_bound, lemma_square_ordered, V2, Vec2I};
use crate::{NORMAL_LIMIT, SPEED_LIMIT_SQ};

verus! {

/// Velocity reflection across the axis spanned by `n`:
/// `v - 2 (v·n̂) n̂` with `n̂` the normalised contact vector, carried out over
/// the integers with the denominator `n·n` and rounding toward zero. A
/// zero-length contact vector cannot be normalised; the velocity is then left
/// unchanged.
pub open spec fn reflect_spec(v: V2, n: V2) -> V2 {
    if n.is_zero() {
        v
    } else {
        let den = n.normsq();
        let d = v.dot(n);
        V2 {
            x: div_trunc(v.x * den - 2 * d * n.x, den),
            y: div_trunc(v.y * den - 2 * d * n.y, den),
        }
    }
}

/// Exact reflection is an isometry: before rounding, the squared length of
/// the reflected velocity, scaled by the squared denominator, equals the
/// squared length of the input so scaled.
proof fn lemma_reflect_isometry(vx: int, vy: int, nx: int, ny: int)
    ensures
        ({
            let den = nx * nx + ny * ny;
            let d = vx * nx + vy * ny;
            (vx * den - 2 * d * nx) * (vx * den - 2 * d * nx) + (vy * den - 2 * d * ny) * (vy * den
                - 2 * d * ny) == (vx * vx + vy * vy) * den * den
        }),
{
    let den = nx * nx + ny * ny;
    let d = vx * nx + vy * ny;
    let a = vx * den - 2 * d * nx;
    let b = vy * den - 2 * d * ny;
    let p = nx * nx;
    let q = ny * ny;
    let m = nx * ny;
    lemma_expand_component(vx, vy, nx, ny, den, d);
    lemma_expand_component(vy, vx, ny, nx, den, d);
    assert(ny * nx == nx * ny) by (nonlinear_arith);
    assert(a == vx * (q - p) - 2 * (vy * m));
    assert(b == vy * (p - q) - 2 * (vx * m));
    lemma_sq_pair(vx, vy, p, q, m);
    assert((q - p) * (q - p) + 4 * (m * m) == (p + q) * (p + q)) by (nonlinear_arith)
        requires
            m == nx * ny,
            p == nx * nx,
            q == ny * ny,
    ;
    assert((vx * vx + vy * vy) * ((p + q) * (p + q)) == (vx * vx + vy * vy) * den * den)
        by (nonlinear_arith)
        requires
            den == p + q,
    ;
}

/// One component of the reflection numerator, rewritten without the shared
/// projection term.
proof fn lemma_expand_component(v1: int, v2: int, n1: int, n2: int, den: int, d: int)
    requires
        den == n1 * n1 + n2 * n2,
        d == v1 * n1 + v2 * n2,
    ensures
        v1 * den - 2 * d * n1 == v1 * (n2 * n2 - n1 * n1) - 2 * (v2 * (n1 * n2)),
{
    assert(v1 * (n1 * n1 + n2 * n2) - 2 * (v1 * n1 + v2 * n2) * n1 == v1 * (n2 * n2 - n1 * n1) - 2
        * (v2 * (n1 * n2))) by (nonlinear_arith);
}

/// The sum of the two rewritten squares factors into speed times axis terms,
/// for arbitrary substitutes of the squared and mixed axis products.
proof fn lemma_sq_pair(vx: int, vy: int, p: int, q: int, m: int)
    ensures
        (vx * (q - p) - 2 * (vy * m)) * (vx * (q - p) - 2 * (vy * m)) + (vy * (p - q) - 2 * (vx
            * m)) * (vy * (p - q) - 2 * (vx * m)) == (vx * vx + vy * vy) * ((q - p) * (q - p) + 4 * (
        m * m)),
{
    let u = q - p;
    let a = vx * (q - p) - 2 * (vy * m);
    let b = vy * (p - q) - 2 * (vx * m);
    let x1 = vx * u;
    let y1 = 2 * (vy * m);
    let x2 = vy * u;
    let y2 = 2 * (vx * m);
    assert(vx * (q - p) == x1 && vy * (p - q) == -x2) by (nonlinear_arith)
        requires
            u == q - p,
            x1 == vx * u,
            x2 == vy * u,
    ;
    lemma_sq_sub(x1, y1);
    assert(b == -(x2 + y2));
    lemma_sq_neg(x2 + y2);
    lemma_sq_add(x2, y2);
    lemma_mul_shuffle(vx, u, vx, u);
    lemma_mul_shuffle(vy, u, vy, u);
    lemma_mul_shuffle(vx, m, vx, m);
    lemma_mul_shuffle(vy, m, vy, m);
    lemma_mul_shuffle(vx, u, vy, m);
    lemma_mul_shuffle(vy, u, vx, m);
    lemma_scalar_right(x1, vy * m);
    lemma_scalar_right(x2, vx * m);
    lemma_scalar_pair(vy * m);
    lemma_scalar_pair(vx * m);
    assert(a * a == (vx * vx) * (u * u) - 4 * ((vx * vy) * (u * m)) + 4 * ((vy * vy) * (m * m)));
    assert(b * b == (vy * vy) * (u * u) + 4 * ((vy * vx) * (u * m)) + 4 * ((vx * vx) * (m * m)));
    assert((vy * vx) * (u * m) == (vx * vy) * (u * m)) by (nonlinear_arith);
    lemma_mul_distrib(u * u, vx, vy);
    lemma_mul_distrib(m * m, vx, vy);
    assert(a * a + b * b == (vx * vx + vy * vy) * (u * u) + 4 * ((vx * vx + vy * vy) * (m * m)));
    let s = vx * vx + vy * vy;
    assert(s * ((q - p) * (q - p) + 4 * (m * m)) == s * (u * u) + s * (4 * (m * m)))
        by (nonlinear_arith)
        requires
            u == q - p,
    ;
    assert(s * (4 * (m * m)) == 4 * (s * (m * m))) by (nonlinear_arith);
}

/// Binomial square of a difference.
proof fn lemma_sq_sub(x: int, y: int)
    ensures
        (x - y) * (x - y) == x * x - 2 * (x * y) + y * y,
{
    assert((x - y) * (x - y) == x * x - 2 * (x * y) + y * y) by (nonlinear_arith);
}

/// Binomial square of a sum.
proof fn lemma_sq_add(x: int, y: int)
    ensures
        (x + y) * (x + y) == x * x + 2 * (x * y) + y * y,
{
    assert((x + y) * (x + y) == x * x + 2 * (x * y) + y * y) by (nonlinear_arith);
}

/// Negation disappears under squaring.
proof fn lemma_sq_neg(x: int)
    ensures
        (-x) * (-x) == x * x,
{
    assert((-x) * (-x) == x * x) by (nonlinear_arith);
}

/// Factors of a product of products may be regrouped.
proof fn lemma_mul_shuffle(a: int, b: int, c: int, d: int)
    ensures
        (a * b) * (c * d) == (a * c) * (b * d),
{
    assert((a * b) * (c * d) == (a * c) * (b * d)) by (nonlinear_arith);
}

/// A doubling on the right factor pulls out.
proof fn lemma_scalar_right(x: int, y: int)
    ensures
        x * (2 * y) == 2 * (x * y),
{
    assert(x * (2 * y) == 2 * (x * y)) by (nonlinear_arith);
}

/// The square of a doubled term.
proof fn lemma_scalar_pair(x: int)
    ensures
        (2 * x) * (2 * x) == 4 * (x * x),
{
    assert((2 * x) * (2 * x) == 4 * (x * x)) by (nonlinear_arith);
}

/// Multiplication distributes over a sum of two squares.
proof fn lemma_mul_distrib(c: int, a: int, b: int)
    ensures
        (a * a) * c + (b * b) * c == (a * a + b * b) * c,
{
    assert((a * a) * c + (b * b) * c == (a * a + b * b) * c) by (nonlinear_arith);
}

/// Rounding toward zero never enlarges a square: the square of the truncated
/// quotient, scaled back by the squared divisor, stays below the square of
/// the dividend.
proof fn lemma_div_trunc_sq(num: int, den: int)
    requires
        den >= 1,
    ensures
        div_trunc(num, den) * div_trunc(num, den) * (den * den) <= num * num,
{
    let q = iabs(num) / den;
    vstd::arithmetic::div_mod::lemma_div_pos_is_pos(iabs(num), den);
    vstd::arithmetic::div_mod::lemma_fundamental_div_mod(iabs(num), den);
    vstd::arithmetic::div_mod::lemma_mod_bound(iabs(num), den);
    assert(q * den <= iabs(num)) by (nonlinear_arith)
        requires
            iabs(num) == den * q + iabs(num) % den,
            iabs(num) % den >= 0,
    ;
    lemma_square_ordered(q * den, iabs(num));
    assert(iabs(num) * iabs(num) == num * num) by (nonlinear_arith);
    assert(div_trunc(num, den) * div_trunc(num, den) * (den * den) == (q * den) * (q * den))
        by (nonlinear_arith)
        requires
            iabs(div_trunc(num, den)) == q,
    ;
}

/// Reflects `v` across the axis spanned by the contact vector `n`, exactly as
/// `reflect_spec` states; the squared speed never increases.
pub fn reflect(v: Vec2I, n: Vec2I) -> (r: Vec2I)
    requires
        v@.normsq() <= SPEED_LIMIT_SQ,
        n@.in_range(NORMAL_LIMIT as int),
    ensures
        r@ == reflect_spec(v@, n@),
        r@.normsq() <= v@.normsq(),
{
    proof {
        if iabs(v.x as int) > 131072 {
            lemma_square_ordered(131073, iabs(v.x as int));
            assert(iabs(v.x as int) * iabs(v.x as int) == v.x as int * v.x as int)
                by (nonlinear_arith);
            assert(v.y as int * v.y as int >= 0) by (nonlinear_arith);
        }
        if iabs(v.y as int) > 131072 {
            lemma_square_ordered(131073, iabs(v.y as int));
            assert(iabs(v.y as int) * iabs(v.y as int) == v.y as int * v.y as int)
                by (nonlinear_arith);
            assert(v.x as int * v.x as int >= 0) by (nonlinear_arith);
        }
    }
    if n.x == 0 && n.y == 0 {
        return v;
    }
    proof {
        lemma_mul_bound(n.x as int, n.x as int, 393216, 393216);
        lemma_mul_bound(n.y as int, n.y as int, 393216, 393216);
        assert(n.x as int * n.x as int >= 0 && n.y as int * n.y as int >= 0) by (nonlinear_arith);
        assert(n.x as int * n.x as int >= 1 || n.y as int * n.y as int >= 1) by (nonlinear_arith)
            requires
                n.x != 0 || n.y != 0,
        ;
        lemma_mul_bound(v.x as int, n.x as int, 131072, 393216);
        lemma_mul_bound(v.y as int, n.y as int, 131072, 393216);
    }
    let den: i64 = n.x * n.x + n.y * n.y;
    let d: i64 = v.x * n.x + v.y * n.y;
    proof {
        lemma_mul_bound(v.x as int, den as int, 131072, 0x48_0000_0000);
        lemma_mul_bound(v.y as int, den as int, 131072, 0x48_0000_0000);
        lemma_mul_bound(2 * d as int, n.x as int, 0x30_0000_0000, 393216);
        lemma_mul_bound(2 * d as int, n.y as int, 0x30_0000_0000, 393216);
    }
    let num_x: i64 = v.x * den - 2 * d * n.x;
    let num_y: i64 = v.y * den - 2 * d * n.y;
    let rx: i64 = div_trunc_i64(num_x, den);
    let ry: i64 = div_trunc_i64(num_y, den);
    proof {
        lemma_reflect_isometry(v.x as int, v.y as int, n.x as int, n.y as int);
        lemma_div_trunc_sq(num_x as int, den as int);
        lemma_div_trunc_sq(num_y as int, den as int);
        assert((rx as int * rx as int + ry as int * ry as int) * (den as int * den as int) <= (
        v.x as int * v.x as int + v.y as int * v.y as int) * (den as int * den as int))
            by (nonlinear_arith)
            requires
                rx as int * rx as int * (den as int * den as int) <= num_x as int * num_x as int,
                ry as int * ry as int * (den as int * den as int) <= num_y as int * num_y as int,
                num_x as int * num_x as int + num_y as int * num_y as int == (v.x as int * v.x
                    as int + v.y as int * v.y as int) * (den as int) * (den as int),
        ;
        assert(rx as int * rx as int + ry as int * ry as int <= v.x as int * v.x as int + v.y
            as int * v.y as int) by (nonlinear_arith)
            requires
                (rx as int * rx as int + ry as int * ry as int) * (den as int * den as int) <= (
                v.x as int * v.x as int + v.y as int * v.y as int) * (den as int * den as int),
                den as int >= 1,
        ;
    }
    Vec2I { x: rx, y: ry }
}

/// Per-projectile bounce state: the remaining budget of reflections and the
/// identity of the most recently handled contact partner. The single-slot
/// memory suppresses repeat triggers while the projectile keeps overlapping
/// the same solid; it deliberately remembers only the latest partner.
#[derive(Clone, Copy, Debug)]
pub struct Bounce {
    pub bounce_count: u32,
    pub last_bounce: Option<u64>,
}

/// What one handled contact does to the bounce state: a repeat of the last
/// partner changes nothing; a new partner consumes budget and is remembered;
/// with no budget left the state is unchanged (the body is destroyed
/// instead).
pub open spec fn step_state(b: Bounce, partner: u64) -> Bounce {
    if b.last_bounce == Some(partner) {
        b
    } else if b.bounce_count > 0 {
        Bounce { bounce_count: (b.bounce_count - 1) as u32, last_bounce: Some(partner) }
    } else {
        b
    }
}

/// The contact reflects the projectile: a new partner while budget remains.
pub open spec fn step_reflects(b: Bounce, partner: u64) -> bool {
    b.last_bounce != Some(partner) && b.bounce_count > 0
}

/// The contact destroys the projectile: a new partner with the budget spent.
pub open spec fn step_destroys(b: Bounce, partner: u64) -> bool {
    b.last_bounce != Some(partner) && b.bounce_count == 0
}

/// What one handled contact does to the projectile.
#[derive(Clone, Copy, PartialEq, Eq, Structural, Debug)]
pub enum BounceOutcome {
    /// Repeat contact with the remembered partner: nothing happens.
    Ignored,
    /// The velocity after reflection; the budget was spent by one.
    Reflected(Vec2I),
    /// The budget was exhausted; the body is to be despawned.
    Destroyed,
}

impl Bounce {
    pub fn new(bounce_count: u32) -> (r: Bounce)
        ensures
            r.bounce_count == bounce_count,
            r.last_bounce is None,
    {
        Bounce { bounce_count, last_bounce: None }
    }

    /// Handles one detected contact with the solid body `partner`, given the
    /// projectile's velocity and the contact vector of the colliding pair.
    pub fn on_contact(&mut self, partner: u64, velocity: Vec2I, normal: Vec2I) -> (out:
        BounceOutcome)
        requires
            velocity@.normsq() <= SPEED_LIMIT_SQ,
            normal@.in_range(NORMAL_LIMIT as int),
        ensures
            *final(self) == step_state(*old(self), partner),
            out is Reflected <==> step_reflects(*old(self), partner),
            out is Destroyed <==> step_destroys(*old(self), partner),
            step_reflects(*old(self), partner) ==> out == BounceOutcome::Reflected(
                Vec2I { x: reflect_spec(velocity@, normal@).x as i64, y: reflect_spec(velocity@, normal@).y as i64 },
            ),
            (out matches BounceOutcome::Reflected(nv) ==> nv@ == reflect_spec(velocity@, normal@)
                && nv@.normsq() <= velocity@.normsq()),
    {
        let same: bool = match self.last_bounce {
            Some(p) => p == partner,
            None => false,
        };
        if same {
            BounceOutcome::Ignored
        } else if self.bounce_count > 0 {
            self.bounce_count = self.bounce_count - 1;
            self.last_bounce = Some(partner);
            let nv = reflect(velocity, normal);
            BounceOutcome::Reflected(nv)
        } else {
            BounceOutcome::Destroyed
        }
    }
}

/// The state after `k` further contacts with the same partner.
pub open spec fn repeat_contacts(b: Bounce, partner: u64, k: nat) -> Bounce
    decreases k,
{
    if k == 0 {
        b
    } else {
        step_state(repeat_contacts(b, partner, (k - 1) as nat), partner)
    }
}

proof fn lemma_repeat_same(b: Bounce, partner: u64, k: nat)
    requires
        b.last_bounce == Some(partner),
    ensures
        repeat_contacts(b, partner, k) == b,
    decreases k,
{
    if k > 0 {
        lemma_repeat_same(b, partner, (k - 1) as nat);
    }
}

/// Bounce depletion: a projectile with a budget of two that meets two
/// distinct solids in sequence reflects on each of them, and a further
/// contact with yet another solid destroys it.
pub proof fn lemma_bounce_depletion(b: Bounce, p1: u64, p2: u64, p3: u64)
    requires
        b.bounce_count == 2,
        b.last_bounce != Some(p1),
        p2 != p1,
        p3 != p2,
    ensures
        step_reflects(b, p1),
        step_reflects(step_state(b, p1), p2),
        step_destroys(step_state(step_state(b, p1), p2), p3),
{
}

/// Bounce de-duplication: a projectile continuously overlapping the same
/// solid reflects exactly once. The first contact spends one unit of budget;
/// every later contact with that same solid, over any number of ticks, is
/// ignored and leaves the state exactly as the first contact left it.
pub proof fn lemma_bounce_dedup(b: Bounce, partner: u64)
    requires
        b.last_bounce != Some(partner),
        b.bounce_count > 0,
    ensures
        step_reflects(b, partner),
        step_state(b, partner).bounce_count == b.bounce_count - 1,
        forall|k: nat| repeat_contacts(step_state(b, partner), partner, k) == step_state(b, partner),
        forall|k: nat| !step_reflects(repeat_contacts(step_state(b, partner), partner, k), partner),
        forall|k: nat| !step_destroys(repeat_contacts(step_state(b, partner), partner, k), partner),
{
    assert forall|k: nat|
        repeat_contacts(step_state(b, partner), partner, k) == step_state(b, partner) by {
        lemma_repeat_same(step_state(b, partner), partner, k);
    }
}

/// What one tick of the bounce responder does: the projectile's collider is
/// held against each solid in order. Every overlap with a solid other than
/// the remembered partner either reflects the velocity and spends budget, or,
/// with the budget exhausted, marks the projectile destroyed; the sweep
/// continues either way, as the despawn is deferred.
pub open spec fn sweep(b: Bounce, v: V2, col: Collider, solids: Seq<(u64, Collider)>) -> (
    Bounce,
    V2,
    bool,
)
    decreases solids.len(),
{
    if solids.len() == 0 {
        (b, v, false)
    } else {
        let id = solids[0].0;
        let sc = solids[0].1;
        if col.spec_intersects(sc) && b.last_bounce != Some(id) {
            if b.bounce_count > 0 {
                sweep(
                    step_state(b, id),
                    reflect_spec(v, col.spec_contact_vector(sc)),
                    col,
                    solids.drop_first(),
                )
            } else {
                let r = sweep(b, v, col, solids.drop_first());
                (r.0, r.1, true)
            }
        } else {
            sweep(b, v, col, solids.drop_first())
        }
    }
}

/// One tick of the bounce responder for one projectile: its collider is
/// tested against every solid, the velocity is reflected on each fresh
/// contact while budget remains, and the returned flag says whether the
/// projectile is to be despawned.
pub fn bounce_tick(
    bounce: &mut Bounce,
    velocity: &mut Vec2I,
    collider: &Collider,
    solids: &Vec<(u64, Collider)>,
) -> (destroyed: bool)
    requires
        collider.well_formed(),
        forall|i: int| 0 <= i < solids@.len() ==> (#[trigger] solids@[i]).1.well_formed(),
        old(velocity)@.normsq() <= SPEED_LIMIT_SQ,
    ensures
        (*final(bounce), final(velocity)@, destroyed) == sweep(
            *old(bounce),
            old(velocity)@,
            *collider,
            solids@,
        ),
        final(velocity)@.normsq() <= old(velocity)@.normsq(),
{
    let n = solids.len();
    let mut destroyed: bool = false;
    let mut i: usize = 0;
    proof {
        assert(solids@.skip(0) =~= solids@);
    }
    while i < n
        invariant
            0 <= i <= n,
            n == solids@.len(),
            collider.well_formed(),
            forall|k: int| 0 <= k < solids@.len() ==> (#[trigger] solids@[k]).1.well_formed(),
            (*velocity)@.normsq() <= old(velocity)@.normsq(),
            old(velocity)@.normsq() <= SPEED_LIMIT_SQ,
            ({
                let r = sweep(*bounce, (*velocity)@, *collider, solids@.skip(i as int));
                (r.0, r.1, r.2 || destroyed)
            }) == sweep(*old(bounce), old(velocity)@, *collider, solids@),
        decreases n - i,
    {
        let ghost pre_b = *bounce;
        let ghost pre_v = (*velocity)@;
        let ghost suffix = solids@.skip(i as int);
        proof {
            assert(suffix[0] == solids@[i as int]);
            assert(suffix.drop_first() =~= solids@.skip(i as int + 1));
        }
        let id: u64 = solids[i].0;
        let sc = &solids[i].1;
        if collider.intersects(sc) {
            let contact = collider.get_contact_vector(sc);
            let out = bounce.on_contact(id, *velocity, contact);
            match out {
                BounceOutcome::Reflected(nv) => {
                    *velocity = nv;
                },
                BounceOutcome::Destroyed => {
                    destroyed = true;
                },
                BounceOutcome::Ignored => {},
            }
        }
        i += 1;
    }
    proof {
        assert(solids@.skip(n as int) =~= Seq::<(u64, Collider)>::empty());
    }
    destroyed
}

} // verus!
