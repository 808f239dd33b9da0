//! A structural hardware-description module over the THmitll cell library.
use vstd::prelude::*;
use crate::backends::order::{internal_names, internal_wire_names};
use crate::backends::{extend_clones, gate_pin_names, join, join_strings, lemma_gate_pins_known, pin_names, Backend};
use crate::circuit::{views, Circuit};
use crate::error::BuildError;
use crate::gate::{GateKind, GateView};

verus! {

/// Renders a circuit as a structural module.
pub struct RsfqlibVerilog;

/// The module of a gate kind; none for an embedded subcircuit.
pub open spec fn verilog_cell(k: GateKind) -> Option<Seq<char>> {
    match k {
        GateKind::Jtl => Some("THmitll_JTL_v3p0_extracted"@),
        GateKind::Split => Some("THmitll_SPLIT_v3p0_extracted"@),
        GateKind::Merge => Some("THmitll_MERGE_v3p0_extracted"@),
        GateKind::And => Some("THmitll_AND_v3p0_extracted"@),
        GateKind::Or => Some("THmitll_OR_v3p0_extracted"@),
        GateKind::Xor => Some("THmitll_XOR_v3p0_extracted"@),
        GateKind::Xnor => Some("THmitll_XNOR_v3p0_extracted"@),
        GateKind::Not => Some("THmitll_NOT_v3p0_extracted"@),
        GateKind::Dff => Some("THmitll_DFF_v3p0_extracted"@),
        GateKind::Ndro => Some("THmitll_NDRO_v3p0_extracted"@),
        GateKind::Buff => Some("THmitll_BUFF_v3p0_extracted"@),
        GateKind::ZeroAsync => Some("THmitll_ALWAYS0_ASYNC_NOA"@),
        GateKind::Subcircuit => None,
    }
}

/// The input ports: inputs, then counter-inputs.
pub open spec fn in_ports(c: &Circuit) -> Seq<Seq<char>> {
    c.input_names() + c.counter_input_names()
}

/// The output ports: outputs, then counter-outputs.
pub open spec fn out_ports(c: &Circuit) -> Seq<Seq<char>> {
    c.output_names() + c.counter_output_names()
}

/// The declarations: the module line, the input and output lines where
/// there are such ports, and the line of internal wires where there are any.
pub open spec fn verilog_declarations(c: &Circuit) -> Seq<Seq<char>> {
    let ins = in_ports(c);
    let outs = out_ports(c);
    let wires = internal_names(c.names(), ins + outs);
    seq!["module "@ + c.name_view() + " ("@ + join(ins + outs, ", "@) + ")"@] + (if ins.len() > 0 {
        seq!["input "@ + join(ins, ", "@) + ";"@]
    } else {
        seq![]
    }) + (if outs.len() > 0 {
        seq!["output "@ + join(outs, ", "@) + ";"@]
    } else {
        seq![]
    }) + (if wires.len() > 0 {
        seq!["wire "@ + join(wires, ", "@) + ";"@]
    } else {
        seq![]
    })
}

/// One instantiation statement.
pub open spec fn verilog_line(c: &Circuit, g: GateView) -> Seq<char> {
    verilog_cell(g.kind)->Some_0 + " "@ + g.name + " ("@ + join(pin_names(c, g), ", "@) + ");"@
}

/// The whole module; an embedded subcircuit cannot be rendered.
pub open spec fn verilog_text(c: &Circuit) -> Result<Seq<char>, BuildError> {
    let gl = c.gate_list();
    if exists|i: int| 0 <= i < gl.len() && (#[trigger] gl[i]).kind == GateKind::Subcircuit {
        Err(BuildError::Unsupported)
    } else {
        Ok(
            join(
                verilog_declarations(c) + gl.map_values(|g: GateView| verilog_line(c, g)) + seq![
                    "endmodule"@,
                ],
                "\n"@,
            ),
        )
    }
}

fn verilog_cell_str(k: GateKind) -> (r: Option<&'static str>)
    ensures
        match r {
            Some(s) => verilog_cell(k) == Some(s@),
            None => verilog_cell(k) is None,
        },
{
    match k {
        GateKind::Jtl => Some("THmitll_JTL_v3p0_extracted"),
        GateKind::Split => Some("THmitll_SPLIT_v3p0_extracted"),
        GateKind::Merge => Some("THmitll_MERGE_v3p0_extracted"),
        GateKind::And => Some("THmitll_AND_v3p0_extracted"),
        GateKind::Or => Some("THmitll_OR_v3p0_extracted"),
        GateKind::Xor => Some("THmitll_XOR_v3p0_extracted"),
        GateKind::Xnor => Some("THmitll_XNOR_v3p0_extracted"),
        GateKind::Not => Some("THmitll_NOT_v3p0_extracted"),
        GateKind::Dff => Some("THmitll_DFF_v3p0_extracted"),
        GateKind::Ndro => Some("THmitll_NDRO_v3p0_extracted"),
        GateKind::Buff => Some("THmitll_BUFF_v3p0_extracted"),
        GateKind::ZeroAsync => Some("THmitll_ALWAYS0_ASYNC_NOA"),
        GateKind::Subcircuit => None,
    }
}

/// `prefix`, the parts separated by `", "`, and `suffix`.
fn framed(prefix: &str, parts: &Vec<String>, suffix: &str) -> (r: String)
    ensures
        r@ == prefix@ + join(views(parts@), ", "@) + suffix@,
{
    let mut s = String::from_str(prefix);
    let joined = join_strings(parts, ", ");
    s.append(joined.as_str());
    s.append(suffix);
    s
}

impl Backend for RsfqlibVerilog {
    open spec fn rendered(c: &Circuit) -> Result<Seq<char>, BuildError> {
        verilog_text(c)
    }

    fn generate(c: &Circuit) -> (r: Result<String, BuildError>) {
        let mut ins: Vec<String> = Vec::new();
        extend_clones(&mut ins, c.inputs());
        extend_clones(&mut ins, c.counter_inputs());
        let mut outs: Vec<String> = Vec::new();
        extend_clones(&mut outs, c.outputs());
        extend_clones(&mut outs, c.counter_outputs());
        let mut ports: Vec<String> = Vec::new();
        extend_clones(&mut ports, &ins);
        extend_clones(&mut ports, &outs);
        proof {
            assert(views(ins@) =~= in_ports(c));
            assert(views(outs@) =~= out_ports(c));
            assert(views(ports@) =~= in_ports(c) + out_ports(c));
        }
        let mut lines: Vec<String> = Vec::new();
        let mut head = String::from_str("module ");
        head.append(c.name());
        let ports_line = framed(" (", &ports, ")");
        head.append(ports_line.as_str());
        proof {
            assert(head@ =~= "module "@ + c.name_view() + " ("@ + join(
                in_ports(c) + out_ports(c),
                ", "@,
            ) + ")"@);
        }
        lines.push(head);
        if ins.len() > 0 {
            lines.push(framed("input ", &ins, ";"));
        }
        if outs.len() > 0 {
            lines.push(framed("output ", &outs, ";"));
        }
        let wires = internal_wire_names(c.wire_names(), &ports);
        if wires.len() > 0 {
            lines.push(framed("wire ", &wires, ";"));
        }
        proof {
            assert(views(ins@).len() == ins@.len());
            assert(views(outs@).len() == outs@.len());
            assert(views(wires@).len() == wires@.len());
            assert(views(lines@) =~= verilog_declarations(c));
        }
        let ghost decl = verilog_declarations(c);
        let gates = c.gates();
        let ghost gl = c.gate_list();
        let mut i: usize = 0;
        while i < gates.len()
            invariant
                0 <= i <= gates@.len(),
                c.wf(),
                gl == c.gate_list(),
                decl == verilog_declarations(c),
                gates@.map_values(|g: crate::gate::Gate| g@) == gl,
                forall|j: int| 0 <= j < i ==> (#[trigger] gl[j]).kind != GateKind::Subcircuit,
                views(lines@) == decl + gl.subrange(0, i as int).map_values(
                    |g: GateView| verilog_line(c, g),
                ),
            decreases gates@.len() - i,
        {
            let gate = &gates[i];
            assert(gl[i as int] == gate@);
            let cell = match verilog_cell_str(gate.kind) {
                Some(s) => s,
                None => {
                    assert(gl[i as int].kind == GateKind::Subcircuit);
                    return Err(BuildError::Unsupported);
                },
            };
            proof {
                lemma_gate_pins_known(c, gates@, i as int);
            }
            let pins = gate_pin_names(c, gate);
            let mut line = String::from_str(cell);
            line.append(" ");
            line.append(gate.name.as_str());
            let rest = framed(" (", &pins, ");");
            line.append(rest.as_str());
            proof {
                assert(line@ =~= verilog_line(c, gl[i as int]));
            }
            let ghost prev = lines@;
            lines.push(line);
            i = i + 1;
            proof {
                assert(views(lines@) =~= views(prev).push(verilog_line(c, gl[i - 1])));
                assert(gl.subrange(0, i as int).map_values(|g: GateView| verilog_line(c, g))
                    =~= gl.subrange(0, i - 1).map_values(|g: GateView| verilog_line(c, g)).push(
                    verilog_line(c, gl[i - 1]),
                ));
                assert(views(lines@) =~= decl + gl.subrange(0, i as int).map_values(
                    |g: GateView| verilog_line(c, g),
                ));
            }
        }
        let ghost prev = lines@;
        lines.push(String::from_str("endmodule"));
        proof {
            assert(gl.subrange(0, i as int) =~= gl);
            assert(views(lines@) =~= views(prev).push("endmodule"@));
            assert(views(lines@) =~= decl + gl.map_values(|g: GateView| verilog_line(c, g)) + seq![
                "endmodule"@,
            ]);
        }
        Ok(join_strings(&lines, "\n"))
    }
}

} // verus!
