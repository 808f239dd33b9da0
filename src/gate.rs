//! Gate model: a closed set of operation kinds, each gate a record of a
//! unique name and the wires on its ports.
use vstd::prelude::*;
use crate::id::WireID;

verus! {

/// The kinds of operation a gate can perform.
#[derive(Clone, Copy, PartialEq, Eq, Structural, Debug)]
pub enum GateKind {
    Jtl,
    Split,
    Merge,
    And,
    Or,
    Xor,
    Not,
    Xnor,
    Dff,
    Ndro,
    Buff,
    ZeroAsync,
    Subcircuit,
}

/// The word that a gate's generated name carries for its kind.
pub open spec fn kind_word(k: GateKind) -> Seq<char> {
    match k {
        GateKind::Jtl => seq!['J', 'T', 'L'],
        GateKind::Split => seq!['S', 'P', 'L', 'I', 'T'],
        GateKind::Merge => seq!['M', 'E', 'R', 'G', 'E'],
        GateKind::And => seq!['A', 'N', 'D'],
        GateKind::Or => seq!['O', 'R'],
        GateKind::Xor => seq!['X', 'O', 'R'],
        GateKind::Not => seq!['N', 'O', 'T'],
        GateKind::Xnor => seq!['X', 'N', 'O', 'R'],
        GateKind::Dff => seq!['D', 'F', 'F'],
        GateKind::Ndro => seq!['N', 'D', 'R', 'O'],
        GateKind::Buff => seq!['B', 'U', 'F', 'F'],
        GateKind::ZeroAsync => seq!['Z', 'E', 'R', 'O', '_', 'A', 'S', 'Y', 'N', 'C'],
        GateKind::Subcircuit => seq![],
    }
}

/// The word of a kind, as text.
pub fn kind_str(k: GateKind) -> (r: &'static str)
    ensures
        r@ == kind_word(k),
{
    match k {
        GateKind::Jtl => {
            proof { reveal_strlit("JTL"); }
            "JTL"
        },
        GateKind::Split => {
            proof { reveal_strlit("SPLIT"); }
            "SPLIT"
        },
        GateKind::Merge => {
            proof { reveal_strlit("MERGE"); }
            "MERGE"
        },
        GateKind::And => {
            proof { reveal_strlit("AND"); }
            "AND"
        },
        GateKind::Or => {
            proof { reveal_strlit("OR"); }
            "OR"
        },
        GateKind::Xor => {
            proof { reveal_strlit("XOR"); }
            "XOR"
        },
        GateKind::Not => {
            proof { reveal_strlit("NOT"); }
            "NOT"
        },
        GateKind::Xnor => {
            proof { reveal_strlit("XNOR"); }
            "XNOR"
        },
        GateKind::Dff => {
            proof { reveal_strlit("DFF"); }
            "DFF"
        },
        GateKind::Ndro => {
            proof { reveal_strlit("NDRO"); }
            "NDRO"
        },
        GateKind::Buff => {
            proof { reveal_strlit("BUFF"); }
            "BUFF"
        },
        GateKind::ZeroAsync => {
            proof { reveal_strlit("ZERO_ASYNC"); }
            "ZERO_ASYNC"
        },
        GateKind::Subcircuit => {
            proof { reveal_strlit(""); }
            ""
        },
    }
}

/// One gate of a circuit. Its ports are listed inputs first, then outputs,
/// in the order of its pins; a subcircuit gate also names the
/// embedded circuit.
#[derive(Debug)]
pub struct Gate {
    pub kind: GateKind,
    pub name: String,
    pub inputs: Vec<WireID>,
    pub outputs: Vec<WireID>,
    pub circuit: Option<String>,
}

/// The mathematical value of a gate.
pub struct GateView {
    pub kind: GateKind,
    pub name: Seq<char>,
    pub inputs: Seq<WireID>,
    pub outputs: Seq<WireID>,
    pub circuit: Option<Seq<char>>,
}

impl View for Gate {
    type V = GateView;

    open spec fn view(&self) -> GateView {
        GateView {
            kind: self.kind,
            name: self.name@,
            inputs: self.inputs@,
            outputs: self.outputs@,
            circuit: match self.circuit {
                Some(c) => Some(c@),
                None => None,
            },
        }
    }
}

} // verus!
