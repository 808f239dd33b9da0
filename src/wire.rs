//! Signal handles. A `Wire` carries a signal forward; a `CounterWire` is
//! the same bookkeeping in the opposite direction. Each counts how often
//! it was driven and received; a handle is settled when both are 1.
use vstd::prelude::*;
use crate::id::{CircuitID, WireID};

verus! {

/// Access to the identifiers that every handle carries.
pub trait HasWireID {
    spec fn wid(&self) -> WireID;

    spec fn cid(&self) -> CircuitID;

    fn wire_id(&self) -> (r: WireID)
        ensures
            r == self.wid(),
    ;

    fn circuit_id(&self) -> (r: CircuitID)
        ensures
            r == self.cid(),
    ;
}

/// What a handle that was released with counts other than one and one had.
#[derive(Clone, Copy, PartialEq, Eq, Structural, Debug)]
pub struct FanViolation {
    pub drivers: u32,
    pub receivers: u32,
}

/// A forward signal handle.
#[derive(Debug)]
pub struct Wire {
    id: WireID,
    cid: CircuitID,
    driver_count: u32,
    receiver_count: u32,
}

/// A counter-flow signal handle.
#[derive(Debug)]
pub struct CounterWire {
    id: WireID,
    cid: CircuitID,
    driver_count: u32,
    receiver_count: u32,
}

impl HasWireID for Wire {
    closed spec fn wid(&self) -> WireID {
        self.id
    }

    closed spec fn cid(&self) -> CircuitID {
        self.cid
    }

    fn wire_id(&self) -> (r: WireID) {
        self.id
    }

    fn circuit_id(&self) -> (r: CircuitID) {
        self.cid
    }
}

impl HasWireID for CounterWire {
    closed spec fn wid(&self) -> WireID {
        self.id
    }

    closed spec fn cid(&self) -> CircuitID {
        self.cid
    }

    fn wire_id(&self) -> (r: WireID) {
        self.id
    }

    fn circuit_id(&self) -> (r: CircuitID) {
        self.cid
    }
}

impl Wire {
    pub closed spec fn drivers(&self) -> nat {
        self.driver_count as nat
    }

    pub closed spec fn receivers(&self) -> nat {
        self.receiver_count as nat
    }

    /// A forward handle held by a caller: driven once, not yet received.
    pub open spec fn is_open(&self) -> bool {
        self.drivers() == 1 && self.receivers() == 0
    }

    pub(crate) fn new(id: WireID, cid: CircuitID) -> (r: Self)
        ensures
            r.wid() == id,
            r.cid() == cid,
            r.drivers() == 0,
            r.receivers() == 0,
    {
        Wire { id, cid, driver_count: 0, receiver_count: 0 }
    }

    pub(crate) fn drive(&mut self)
        requires
            old(self).drivers() < u32::MAX,
        ensures
            final(self).wid() == old(self).wid(),
            final(self).cid() == old(self).cid(),
            final(self).drivers() == old(self).drivers() + 1,
            final(self).receivers() == old(self).receivers(),
    {
        self.driver_count = self.driver_count + 1;
    }

    pub(crate) fn receive(&mut self)
        requires
            old(self).receivers() < u32::MAX,
        ensures
            final(self).wid() == old(self).wid(),
            final(self).cid() == old(self).cid(),
            final(self).drivers() == old(self).drivers(),
            final(self).receivers() == old(self).receivers() + 1,
    {
        self.receiver_count = self.receiver_count + 1;
    }

    /// Retires the handle: succeeds exactly when it was driven once and
    /// received once; otherwise reports the counts it had.
    pub fn release(self) -> (r: Result<(), FanViolation>)
        ensures
            r is Ok <==> (self.drivers() == 1 && self.receivers() == 1),
            r is Err ==> r->Err_0 == (FanViolation {
                drivers: self.drivers() as u32,
                receivers: self.receivers() as u32,
            }),
    {
        if self.driver_count == 1 && self.receiver_count == 1 {
            Ok(())
        } else {
            Err(FanViolation { drivers: self.driver_count, receivers: self.receiver_count })
        }
    }
}

impl CounterWire {
    pub closed spec fn drivers(&self) -> nat {
        self.driver_count as nat
    }

    pub closed spec fn receivers(&self) -> nat {
        self.receiver_count as nat
    }

    /// A counter-flow handle held by a caller: received once, not yet driven.
    pub open spec fn is_open(&self) -> bool {
        self.drivers() == 0 && self.receivers() == 1
    }

    pub(crate) fn new(id: WireID, cid: CircuitID) -> (r: Self)
        ensures
            r.wid() == id,
            r.cid() == cid,
            r.drivers() == 0,
            r.receivers() == 0,
    {
        CounterWire { id, cid, driver_count: 0, receiver_count: 0 }
    }

    pub(crate) fn drive(&mut self)
        requires
            old(self).drivers() < u32::MAX,
        ensures
            final(self).wid() == old(self).wid(),
            final(self).cid() == old(self).cid(),
            final(self).drivers() == old(self).drivers() + 1,
            final(self).receivers() == old(self).receivers(),
    {
        self.driver_count = self.driver_count + 1;
    }

    pub(crate) fn receive(&mut self)
        requires
            old(self).receivers() < u32::MAX,
        ensures
            final(self).wid() == old(self).wid(),
            final(self).cid() == old(self).cid(),
            final(self).drivers() == old(self).drivers(),
            final(self).receivers() == old(self).receivers() + 1,
    {
        self.receiver_count = self.receiver_count + 1;
    }

    /// Retires the handle: succeeds exactly when it was driven once and
    /// received once; otherwise reports the counts it had.
    pub fn release(self) -> (r: Result<(), FanViolation>)
        ensures
            r is Ok <==> (self.drivers() == 1 && self.receivers() == 1),
            r is Err ==> r->Err_0 == (FanViolation {
                drivers: self.drivers() as u32,
                receivers: self.receivers() as u32,
            }),
    {
        if self.driver_count == 1 && self.receiver_count == 1 {
            Ok(())
        } else {
            Err(FanViolation { drivers: self.driver_count, receivers: self.receiver_count })
        }
    }
}

/// Consumes an open forward handle as a gate input: marks it received and
/// retires it, which is settled by construction.
pub(crate) fn consume_wire(w: Wire) -> (r: WireID)
    requires
        w.is_open(),
    ensures
        r == w.wid(),
{
    let mut w = w;
    w.receive();
    let id = w.wire_id();
    let settled = w.release();
    assert(settled is Ok);
    id
}

/// Consumes an open counter-flow handle at a gate: marks it driven and
/// retires it, which is settled by construction.
pub(crate) fn consume_counter_wire(w: CounterWire) -> (r: WireID)
    requires
        w.is_open(),
    ensures
        r == w.wid(),
{
    let mut w = w;
    w.drive();
    let id = w.wire_id();
    let settled = w.release();
    assert(settled is Ok);
    id
}

} // verus!
