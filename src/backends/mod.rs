//! Text renderings of a finished circuit.
use vstd::prelude::*;
use crate::circuit::{views, Circuit};
use crate::error::BuildError;
use crate::gate::{Gate, GateKind, GateView};
use crate::id::WireID;

pub mod order;
pub mod rsfqlib_spice;
pub mod rsfqlib_verilog;

verus! {

/// A rendering of a finished circuit as text.
pub trait Backend {
    /// The text of `c`, or the error that stops its rendering.
    spec fn rendered(c: &Circuit) -> Result<Seq<char>, BuildError>;

    fn generate(c: &Circuit) -> (r: Result<String, BuildError>)
        requires
            c.wf(),
            c.open_handles() == 0,
            forall|i: int|
                0 <= i < c.gate_list().len() ==> (#[trigger] c.gate_list()[i]).kind
                    != GateKind::Subcircuit,
        ensures
            match r {
                Ok(s) => Self::rendered(c) == Ok::<Seq<char>, BuildError>(s@),
                Err(e) => Self::rendered(c) == Err::<Seq<char>, BuildError>(e),
            },
    ;
}

/// `parts` separated by `sep`.
pub open spec fn join(parts: Seq<Seq<char>>, sep: Seq<char>) -> Seq<char>
    decreases parts.len(),
{
    if parts.len() == 0 {
        seq![]
    } else if parts.len() == 1 {
        parts[0]
    } else {
        join(parts.drop_last(), sep) + sep + parts.last()
    }
}

/// `parts` separated by `sep`.
pub fn join_strings(parts: &Vec<String>, sep: &str) -> (r: String)
    ensures
        r@ == join(views(parts@), sep@),
{
    let ghost pv = views(parts@);
    let mut s = String::new();
    let mut i: usize = 0;
    while i < parts.len()
        invariant
            0 <= i <= parts@.len(),
            pv == views(parts@),
            s@ == join(pv.subrange(0, i as int), sep@),
        decreases parts@.len() - i,
    {
        if i > 0 {
            s.append(sep);
        }
        s.append(parts[i].as_str());
        i = i + 1;
        proof {
            let sub = pv.subrange(0, i as int);
            assert(sub.drop_last() =~= pv.subrange(0, i - 1));
            assert(sub.last() == parts@[i - 1]@);
            if i == 1 {
                assert(s@ =~= join(sub, sep@));
            }
        }
    }
    proof {
        assert(pv.subrange(0, i as int) =~= pv);
    }
    s
}

/// The display names of the wires on a gate's pins, inputs first.
pub open spec fn pin_names(c: &Circuit, g: GateView) -> Seq<Seq<char>> {
    (g.inputs + g.outputs).map_values(|w: WireID| c.name_of(w))
}

/// The display names of the wires on a gate's pins, inputs first.
pub fn gate_pin_names(c: &Circuit, gate: &Gate) -> (r: Vec<String>)
    requires
        forall|k: int| 0 <= k < gate.inputs@.len() ==> c.knows(#[trigger] gate.inputs@[k]),
        forall|k: int| 0 <= k < gate.outputs@.len() ==> c.knows(#[trigger] gate.outputs@[k]),
    ensures
        views(r@) == pin_names(c, gate@),
{
    let ghost pins = gate.inputs@ + gate.outputs@;
    let mut out: Vec<String> = Vec::new();
    let mut i: usize = 0;
    while i < gate.inputs.len()
        invariant
            0 <= i <= gate.inputs@.len(),
            pins == gate.inputs@ + gate.outputs@,
            forall|k: int| 0 <= k < gate.inputs@.len() ==> c.knows(#[trigger] gate.inputs@[k]),
            views(out@) == pin_names(c, gate@).subrange(0, i as int),
        decreases gate.inputs@.len() - i,
    {
        let w = gate.inputs[i];
        let name = match c.wire_name(w) {
            Some(n) => n,
            None => {
                assert(false);
                ""
            },
        };
        let ghost prev = out@;
        out.push(String::from_str(name));
        i = i + 1;
        proof {
            assert(pins[i - 1] == w);
            assert(views(out@) =~= views(prev).push(name@));
            assert(views(out@) =~= pin_names(c, gate@).subrange(0, i as int));
        }
    }
    let mut j: usize = 0;
    while j < gate.outputs.len()
        invariant
            0 <= j <= gate.outputs@.len(),
            pins == gate.inputs@ + gate.outputs@,
            forall|k: int| 0 <= k < gate.outputs@.len() ==> c.knows(#[trigger] gate.outputs@[k]),
            views(out@) == pin_names(c, gate@).subrange(0, gate.inputs@.len() + j),
        decreases gate.outputs@.len() - j,
    {
        let w = gate.outputs[j];
        let name = match c.wire_name(w) {
            Some(n) => n,
            None => {
                assert(false);
                ""
            },
        };
        let ghost prev = out@;
        out.push(String::from_str(name));
        j = j + 1;
        proof {
            assert(pins[gate.inputs@.len() + j - 1] == w);
            assert(views(out@) =~= views(prev).push(name@));
            assert(views(out@) =~= pin_names(c, gate@).subrange(0, gate.inputs@.len() + j));
        }
    }
    proof {
        assert(pin_names(c, gate@).subrange(0, pins.len() as int) =~= pin_names(c, gate@));
    }
    out
}

/// A gate's pins are registered wires of a well-formed circuit.
pub proof fn lemma_gate_pins_known(c: &Circuit, gates: Seq<Gate>, g: int)
    requires
        c.wf(),
        gates.map_values(|x: Gate| x@) == c.gate_list(),
        0 <= g < gates.len(),
    ensures
        forall|k: int| 0 <= k < gates[g].inputs@.len() ==> c.knows(#[trigger] gates[g].inputs@[k]),
        forall|k: int|
            0 <= k < gates[g].outputs@.len() ==> c.knows(#[trigger] gates[g].outputs@[k]),
{
    assert(c.gate_list()[g] == gates[g]@);
    c.lemma_wf_pins();
    assert forall|k: int| 0 <= k < gates[g].inputs@.len() implies c.knows(
        #[trigger] gates[g].inputs@[k],
    ) by {
        assert(c.gate_list()[g].inputs[k] == gates[g].inputs@[k]);
    }
    assert forall|k: int| 0 <= k < gates[g].outputs@.len() implies c.knows(
        #[trigger] gates[g].outputs@[k],
    ) by {
        assert(c.gate_list()[g].outputs[k] == gates[g].outputs@[k]);
    }
}

/// Appends copies of the strings of `src` to `dst`.
pub fn extend_clones(dst: &mut Vec<String>, src: &Vec<String>)
    ensures
        views(final(dst)@) == views(old(dst)@) + views(src@),
{
    let mut i: usize = 0;
    while i < src.len()
        invariant
            0 <= i <= src@.len(),
            views(dst@) == views(old(dst)@) + views(src@).subrange(0, i as int),
        decreases src@.len() - i,
    {
        let ghost prev = dst@;
        dst.push(src[i].clone());
        i = i + 1;
        proof {
            assert(views(dst@) =~= views(prev).push(src@[i - 1]@));
            assert(views(dst@) =~= views(old(dst)@) + views(src@).subrange(0, i as int));
        }
    }
    proof {
        assert(views(src@).subrange(0, i as int) =~= views(src@));
    }
}

} // verus!
