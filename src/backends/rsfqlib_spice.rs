//! A subcircuit netlist over the THmitll cell library.
use vstd::prelude::*;
use crate::backends::{extend_clones, gate_pin_names, join, join_strings, lemma_gate_pins_known, pin_names, Backend};
use crate::circuit::{views, Circuit};
use crate::error::BuildError;
use crate::gate::{GateKind, GateView};

verus! {

/// Renders a circuit as a `.subckt` netlist.
pub struct RsfqlibSpice;

/// The library cell of a gate kind; none for an embedded subcircuit.
pub open spec fn spice_cell(k: GateKind) -> Option<Seq<char>> {
    match k {
        GateKind::Jtl => Some("THmitll_JTL"@),
        GateKind::Split => Some("THmitll_SPLIT"@),
        GateKind::Merge => Some("THmitll_MERGE"@),
        GateKind::And => Some("THmitll_AND"@),
        GateKind::Or => Some("THmitll_OR"@),
        GateKind::Xor => Some("THmitll_XOR"@),
        GateKind::Xnor => Some("THmitll_XNOR"@),
        GateKind::Not => Some("THmitll_NOT"@),
        GateKind::Dff => Some("THmitll_DFF"@),
        GateKind::Ndro => Some("THmitll_NDRO"@),
        GateKind::Buff => Some("THmitll_BUFF"@),
        GateKind::ZeroAsync => Some("THmitll_ALWAYS0_ASYNC_NOA"@),
        GateKind::Subcircuit => None,
    }
}

/// The header: the circuit's name, then its ports in the order inputs,
/// counter-outputs, outputs, counter-inputs.
pub open spec fn spice_header(c: &Circuit) -> Seq<char> {
    ".subckt "@ + c.name_view() + " "@ + join(
        c.input_names() + c.counter_output_names() + c.output_names() + c.counter_input_names(),
        " "@,
    )
}

/// One instantiation line: a gate's name, its pins' wire names and its cell.
pub open spec fn spice_line(c: &Circuit, g: GateView) -> Seq<char> {
    join(seq![g.name] + pin_names(c, g) + seq![spice_cell(g.kind)->Some_0], " "@)
}

/// The whole netlist; an embedded subcircuit has no cell and cannot be
/// rendered.
pub open spec fn spice_text(c: &Circuit) -> Result<Seq<char>, BuildError> {
    let gl = c.gate_list();
    if exists|i: int| 0 <= i < gl.len() && (#[trigger] gl[i]).kind == GateKind::Subcircuit {
        Err(BuildError::Unsupported)
    } else {
        Ok(
            join(
                seq![spice_header(c)] + gl.map_values(|g: GateView| spice_line(c, g)) + seq![
                    ".ends"@,
                ],
                "\n"@,
            ),
        )
    }
}

fn spice_cell_str(k: GateKind) -> (r: Option<&'static str>)
    ensures
        match r {
            Some(s) => spice_cell(k) == Some(s@),
            None => spice_cell(k) is None,
        },
{
    match k {
        GateKind::Jtl => Some("THmitll_JTL"),
        GateKind::Split => Some("THmitll_SPLIT"),
        GateKind::Merge => Some("THmitll_MERGE"),
        GateKind::And => Some("THmitll_AND"),
        GateKind::Or => Some("THmitll_OR"),
        GateKind::Xor => Some("THmitll_XOR"),
        GateKind::Xnor => Some("THmitll_XNOR"),
        GateKind::Not => Some("THmitll_NOT"),
        GateKind::Dff => Some("THmitll_DFF"),
        GateKind::Ndro => Some("THmitll_NDRO"),
        GateKind::Buff => Some("THmitll_BUFF"),
        GateKind::ZeroAsync => Some("THmitll_ALWAYS0_ASYNC_NOA"),
        GateKind::Subcircuit => None,
    }
}

impl Backend for RsfqlibSpice {
    open spec fn rendered(c: &Circuit) -> Result<Seq<char>, BuildError> {
        spice_text(c)
    }

    fn generate(c: &Circuit) -> (r: Result<String, BuildError>) {
        let mut ports: Vec<String> = Vec::new();
        extend_clones(&mut ports, c.inputs());
        extend_clones(&mut ports, c.counter_outputs());
        extend_clones(&mut ports, c.outputs());
        extend_clones(&mut ports, c.counter_inputs());
        let mut header = String::from_str(".subckt ");
        header.append(c.name());
        header.append(" ");
        let joined = join_strings(&ports, " ");
        header.append(joined.as_str());
        proof {
            assert(views(ports@) =~= c.input_names() + c.counter_output_names() + c.output_names()
                + c.counter_input_names());
            assert(header@ =~= spice_header(c));
        }
        let mut lines: Vec<String> = Vec::new();
        lines.push(header);
        let gates = c.gates();
        let ghost gl = c.gate_list();
        let mut i: usize = 0;
        while i < gates.len()
            invariant
                0 <= i <= gates@.len(),
                c.wf(),
                gl == c.gate_list(),
                gates@.map_values(|g: crate::gate::Gate| g@) == gl,
                forall|j: int| 0 <= j < i ==> (#[trigger] gl[j]).kind != GateKind::Subcircuit,
                views(lines@) == seq![spice_header(c)] + gl.subrange(0, i as int).map_values(
                    |g: GateView| spice_line(c, g),
                ),
            decreases gates@.len() - i,
        {
            let gate = &gates[i];
            assert(gl[i as int] == gate@);
            let cell = match spice_cell_str(gate.kind) {
                Some(s) => s,
                None => {
                    assert(gl[i as int].kind == GateKind::Subcircuit);
                    return Err(BuildError::Unsupported);
                },
            };
            proof {
                lemma_gate_pins_known(c, gates@, i as int);
            }
            let mut parts: Vec<String> = Vec::new();
            parts.push(gate.name.clone());
            proof {
                assert(views(parts@) =~= seq![gate@.name]);
            }
            let pins = gate_pin_names(c, gate);
            extend_clones(&mut parts, &pins);
            let ghost mid = parts@;
            parts.push(String::from_str(cell));
            proof {
                assert(views(parts@) =~= views(mid).push(cell@));
            }
            let line = join_strings(&parts, " ");
            proof {
                assert(views(parts@) =~= seq![gate@.name] + pin_names(c, gate@) + seq![
                    spice_cell(gate.kind)->Some_0,
                ]);
            }
            let ghost prev = lines@;
            lines.push(line);
            i = i + 1;
            proof {
                assert(views(lines@) =~= views(prev).push(spice_line(c, gl[i - 1])));
                assert(gl.subrange(0, i as int).map_values(|g: GateView| spice_line(c, g))
                    =~= gl.subrange(0, i - 1).map_values(|g: GateView| spice_line(c, g)).push(
                    spice_line(c, gl[i - 1]),
                ));
                assert(views(lines@) =~= seq![spice_header(c)] + gl.subrange(0, i as int).map_values(
                    |g: GateView| spice_line(c, g),
                ));
            }
        }
        let ghost prev = lines@;
        lines.push(String::from_str(".ends"));
        proof {
            assert(gl.subrange(0, i as int) =~= gl);
            assert(views(lines@) =~= views(prev).push(".ends"@));
            assert(views(lines@) =~= seq![spice_header(c)] + gl.map_values(
                |g: GateView| spice_line(c, g),
            ) + seq![".ends"@]);
        }
        Ok(join_strings(&lines, "\n"))
    }
}

} // verus!
