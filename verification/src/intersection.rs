use vstd::prelude::*;

use crate::collider::Collider;

verus! {

/// Whether the collider at position `i` overlaps any collider at another
/// position.
pub open spec fn any_other_intersects(cs: Seq<Collider>, i: int) -> bool {
    exists|j: int| 0 <= j < cs.len() && j != i && (#[trigger] cs[i].spec_intersects(cs[j]))
}

/// One tick of the intersection tracker: every active collider is tested
/// against every other, and each body's flag reports whether any pair
/// overlapped. An all-pairs sweep, quadratic in the number of bodies — meant
/// for the few dozen bodies this design targets, with no spatial
/// acceleration. The flags are observational only and are overwritten each
/// tick.
pub fn update_intersection(colliders: &Vec<Collider>) -> (flags: Vec<bool>)
    requires
        forall|i: int| 0 <= i < colliders@.len() ==> (#[trigger] colliders@[i]).well_formed(),
    ensures
        flags@.len() == colliders@.len(),
        forall|i: int|
            0 <= i < flags@.len() ==> flags@[i] == any_other_intersects(colliders@, i),
{
    let n = colliders.len();
    let mut flags: Vec<bool> = Vec::new();
    let mut i: usize = 0;
    while i < n
        invariant
            0 <= i <= n,
            n == colliders@.len(),
            flags@.len() == i,
            forall|i2: int|
                0 <= i2 < colliders@.len() ==> (#[trigger] colliders@[i2]).well_formed(),
            forall|k: int| 0 <= k < i ==> flags@[k] == any_other_intersects(colliders@, k),
        decreases n - i,
    {
        let mut collied: bool = false;
        let mut j: usize = 0;
        while j < n
            invariant
                0 <= j <= n,
                0 <= i < n,
                n == colliders@.len(),
                forall|i2: int|
                    0 <= i2 < colliders@.len() ==> (#[trigger] colliders@[i2]).well_formed(),
                collied ==> any_other_intersects(colliders@, i as int),
                !collied ==> forall|k: int|
                    0 <= k < j && k != i ==> !(#[trigger] colliders@[i as int].spec_intersects(
                        colliders@[k],
                    )),
            decreases n - j,
        {
            if j != i {
                if colliders[i].intersects(&colliders[j]) {
                    collied = true;
                }
            }
            j += 1;
        }
        flags.push(collied);
        i += 1;
    }
    flags
}

} // verus!
