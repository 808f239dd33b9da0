//! Construction-time checked builder for single-flux-quantum logic circuits.
//!
//! Gate constructors consume signal handles and return fresh ones; every
//! handle has exactly one producer and one consumer, and the circuit keeps
//! the count of handles still held by the caller so that a finished circuit
//! can be checked for dangling signals.
pub mod id;
pub mod names;
pub mod hash;
pub mod wire;
pub mod gate;
pub mod error;
pub mod circuit;
pub mod backends;

pub use backends::rsfqlib_spice::RsfqlibSpice;
pub use backends::rsfqlib_verilog::RsfqlibVerilog;
pub use backends::Backend;
pub use circuit::Circuit;
pub use error::BuildError;
pub use gate::{Gate, GateKind};
pub use id::{CircuitID, WireID};
pub use wire::{CounterWire, FanViolation, HasWireID, Wire};
