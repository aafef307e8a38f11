use vstd::prelude::*;

use crate::collider::{refreshed, Collider};
use crate::pose::Pose;

verus! {

/// Capability tag: a body carrying it takes part in blocking collisions
/// against dynamic movers. A composable attribute, not a subtype; static
/// obstacles and tanks both carry it.
pub struct Solid {}

/// The mover's refreshed collider overlaps some solid belonging to another
/// body.
pub open spec fn blocked(col: Collider, mover_id: u64, solids: Seq<(u64, Collider)>) -> bool {
    exists|j: int|
        0 <= j < solids.len() && solids[j].0 != mover_id && col.spec_intersects(
            (#[trigger] solids[j]).1,
        )
}

/// Solid-collision resolution by positional rollback. The caller has cached
/// `last_valid` before applying the tick's movement and proposes `attempted`;
/// the mover's collider is refreshed at the attempted pose and held against
/// every other solid. On any overlap the returned pose is exactly the cached
/// one — a full rollback, position and rotation, with no sliding — and
/// otherwise the attempted pose stands.
pub fn resolve_solid_collision(
    collider: &mut Collider,
    mover_id: u64,
    last_valid: &Pose,
    attempted: &Pose,
    solids: &Vec<(u64, Collider)>,
) -> (pose: Pose)
    requires
        old(collider).well_formed(),
        last_valid.well_formed(),
        attempted.well_formed(),
        forall|i: int| 0 <= i < solids@.len() ==> (#[trigger] solids@[i]).1.well_formed(),
    ensures
        final(collider).well_formed(),
        refreshed(*old(collider), *final(collider), *attempted),
        pose == if blocked(*final(collider), mover_id, solids@) {
            *last_valid
        } else {
            *attempted
        },
{
    collider.update(attempted);
    let n = solids.len();
    let mut i: usize = 0;
    while i < n
        invariant
            0 <= i <= n,
            n == solids@.len(),
            collider.well_formed(),
            refreshed(*old(collider), *collider, *attempted),
            forall|k: int| 0 <= k < solids@.len() ==> (#[trigger] solids@[k]).1.well_formed(),
            forall|k: int|
                0 <= k < i ==> !((#[trigger] solids@[k]).0 != mover_id
                    && collider.spec_intersects(solids@[k].1)),
        decreases n - i,
    {
        if solids[i].0 != mover_id {
            if collider.intersects(&solids[i].1) {
                return *last_valid;
            }
        }
        i += 1;
    }
    *attempted
}

} // verus!
