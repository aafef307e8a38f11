use vstd::prelude::*;

use crate::collider::{refreshed, same_shape, Collider};
use crate::pose::{Pose, Rotation};
use crate::vec2::Vec2I;
use crate::COORD_LIMIT;

verus! {

/// The bounded rejection-sampling search for a spawn position found no free
/// spot within its attempt budget.
#[derive(Clone, Copy, PartialEq, Eq, Structural, Debug)]
pub struct PlacementError {}

/// Relies on rand::random_range: a uniform draw from the half-open range,
/// which always lies inside it. The function panics only on an empty range,
/// which the precondition rules out.
#[verifier::external_body]
fn sample_range(lo: i64, hi: i64) -> (r: i64)
    requires
        lo < hi,
    ensures
        lo <= r < hi,
{
    rand::random_range(lo..hi)
}

/// The zero-rotation pose at translation `t`, as the sampler places
/// candidates.
pub open spec fn spawn_pose(t: Vec2I) -> Pose {
    Pose { translation: t, rotation: (Rotation { cos_num: 1i64, sin_num: 0i64, den: 1i64 }) }
}

/// Whether a sampled translation is admissible for the given half-extents.
pub open spec fn in_bounds(t: Vec2I, half_width: i64, half_height: i64) -> bool {
    -half_width <= t.x < half_width && -half_height <= t.y < half_height
}

/// Rejection-sampling spawn placement: draw a uniform position within the
/// playfield's half-extents, place the candidate shape there with zero
/// rotation, and accept the first position whose shape overlaps no existing
/// solid. The search is bounded: after `max_attempts` rejected draws it
/// reports a `PlacementError` instead of looping on.
///
/// On success the returned position is within bounds and the candidate
/// collider, refreshed at that position, overlaps no solid. If every
/// admissible position is free — in particular when there are no solids —
/// success is guaranteed; otherwise it depends on the draws.
pub fn get_random_position(
    collider: &mut Collider,
    half_width: i64,
    half_height: i64,
    solids: &Vec<Collider>,
    max_attempts: u32,
) -> (r: Result<Vec2I, PlacementError>)
    requires
        old(collider).well_formed(),
        1 <= half_width <= COORD_LIMIT,
        1 <= half_height <= COORD_LIMIT,
        max_attempts >= 1,
        forall|i: int| 0 <= i < solids@.len() ==> (#[trigger] solids@[i]).well_formed(),
    ensures
        final(collider).well_formed(),
        same_shape(*old(collider), *final(collider)),
        (match r {
            Ok(p) => {
                &&& in_bounds(p, half_width, half_height)
                &&& refreshed(*old(collider), *final(collider), spawn_pose(p))
                &&& forall|j: int|
                    0 <= j < solids@.len() ==> !final(collider).spec_intersects(
                        #[trigger] solids@[j],
                    )
            },
            Err(_) => true,
        }),
        (forall|t: Vec2I, c: Collider|
            in_bounds(t, half_width, half_height) && refreshed(*old(collider), c, spawn_pose(t))
                ==> (forall|j: int|
                0 <= j < solids@.len() ==> !c.spec_intersects(#[trigger] solids@[j]))) ==> r is Ok,
{
    let mut attempt: u32 = 0;
    while attempt < max_attempts
        invariant
            0 <= attempt <= max_attempts,
            collider.well_formed(),
            same_shape(*old(collider), *collider),
            1 <= half_width <= COORD_LIMIT,
            1 <= half_height <= COORD_LIMIT,
            max_attempts >= 1,
            forall|i: int| 0 <= i < solids@.len() ==> (#[trigger] solids@[i]).well_formed(),
            attempt > 0 ==> !(forall|t: Vec2I, c: Collider|
                in_bounds(t, half_width, half_height) && refreshed(
                    *old(collider),
                    c,
                    spawn_pose(t),
                ) ==> (forall|j: int|
                    0 <= j < solids@.len() ==> !c.spec_intersects(#[trigger] solids@[j]))),
        decreases max_attempts - attempt,
    {
        let x = sample_range(-half_width, half_width);
        let y = sample_range(-half_height, half_height);
        let t = Vec2I { x, y };
        let pose = Pose::from_translation(t);
        let ghost before = *collider;
        collider.update(&pose);
        proof {
            assert(pose == spawn_pose(t));
            let cur = *collider;
            let orig = *old(collider);
            match (orig, before, cur) {
                (Collider::Polygon(p0), Collider::Polygon(pb), Collider::Polygon(p1)) => {
                    assert(pb.rel_seq() == p0.rel_seq());
                    assert forall|k: int| 0 <= k < p1.world_seq().len() implies p1.world_seq()[k]
                        == pose.apply_spec(#[trigger] p0.rel_seq()[k]) by {
                        assert(p1.world_seq()[k] == pose.apply_spec(pb.rel_seq()[k]));
                    }
                },
                _ => {},
            }
            assert(refreshed(*old(collider), *collider, spawn_pose(t)));
        }
        let n = solids.len();
        let mut j: usize = 0;
        let mut hit: bool = false;
        while j < n
            invariant
                0 <= j <= n,
                n == solids@.len(),
                collider.well_formed(),
                forall|k: int| 0 <= k < solids@.len() ==> (#[trigger] solids@[k]).well_formed(),
                !hit ==> forall|k: int|
                    0 <= k < j ==> !collider.spec_intersects(#[trigger] solids@[k]),
                hit ==> exists|k: int|
                    0 <= k < solids@.len() && collider.spec_intersects(#[trigger] solids@[k]),
            decreases n - j,
        {
            if collider.intersects(&solids[j]) {
                hit = true;
            }
            j += 1;
        }
        if !hit {
            return Ok(t);
        }
        proof {
            assert(in_bounds(t, half_width, half_height));
        }
        attempt += 1;
    }
    Err(PlacementError {})
}

} // verus!
