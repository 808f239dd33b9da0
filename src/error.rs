//! The ways in which building a circuit can fail.
use vstd::prelude::*;
use crate::wire::FanViolation;

verus! {

/// A circuit description that cannot be built.
#[derive(Clone, Copy, PartialEq, Eq, Structural, Debug)]
pub enum BuildError {
    /// A handle was passed to a circuit other than the one that made it.
    Provenance,
    /// A handle names a wire that the circuit does not know.
    UnknownWire,
    /// A new wire's name is already in use.
    NameTaken,
    /// The wire to label already has a user label.
    AlreadyLabeled,
    /// A user label starts with the reserved marker.
    ReservedLabel,
    /// Two different user labels meet at a unification.
    NameConflict,
    /// A handle was retired with counts other than one and one.
    Fan(FanViolation),
    /// Handles of the circuit are still held when it is finished.
    Dangling(u64),
    /// A backend has no rendering for a gate of this kind.
    Unsupported,
}

} // verus!
