//! Opaque identifiers for wires and circuits.
use vstd::prelude::*;

verus! {

/// A circuit-local wire identifier; allocated from 1 upward, never reused.
#[derive(Clone, Copy, PartialEq, Eq, Structural, Debug, Hash)]
pub struct WireID(pub u32);

/// A per-circuit tag derived from the circuit's name.
#[derive(Clone, Copy, PartialEq, Eq, Structural, Debug, Hash)]
pub struct CircuitID(pub u32);

} // verus!
