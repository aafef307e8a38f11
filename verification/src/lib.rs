pub mod bounce;
pub mod circle;
pub mod collider;
pub mod geom;
pub mod intersection;
pub mod placement;
pub mod polygon;
pub mod pose;
pub mod solid;
pub mod vec2;

use vstd::prelude::*;

verus! {

/// Largest magnitude allowed for a local-space coordinate, a translation
/// component or a circle radius. Keeping inputs inside this bound lets every
/// intermediate product of the collision tests fit comfortably in `i64` or
/// `i128`.
pub const COORD_LIMIT: i64 = 65536;

/// Largest magnitude a world-space coordinate can reach, three times the
/// coordinate limit: a rotation maps a local point within twice the
/// coordinate range, and the translation adds one more.
pub const WORLD_LIMIT: i64 = 196608;

/// Largest magnitude of a contact-vector component, twice the world limit:
/// the difference of two world-space points.
pub const NORMAL_LIMIT: i64 = 393216;

/// Largest magnitude of a vertex projection onto a separating axis, twice the
/// product of the world and axis limits.
pub const PROJ_LIMIT: i64 = 154618822656;

/// Largest squared length of a velocity handed to the bounce responder,
/// twice the square of the coordinate limit. Reflection never increases the
/// squared length, so reflected velocities stay inside the same bound.
pub const SPEED_LIMIT_SQ: i64 = 8589934592;

/// Rejection of degenerate shape geometry at construction time.
#[derive(Clone, Copy, PartialEq, Eq, Structural, Debug)]
pub enum ConfigurationError {
    /// A polygon needs at least three vertices.
    TooFewVertices,
    /// Two consecutive vertices coincide; the edge between them has no
    /// direction and would yield a degenerate separating axis.
    ZeroLengthEdge,
}

} // verus!
