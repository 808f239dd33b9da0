use sfq_builder::{
    Backend, BuildError, Circuit, CounterWire, FanViolation, GateKind, HasWireID, RsfqlibSpice,
    RsfqlibVerilog, Wire, WireID,
};

type Ports = (Circuit, Vec<Wire>, Vec<CounterWire>, Vec<CounterWire>, Vec<Wire>);

fn one_in_one_out(name: &str) -> (Circuit, Wire, CounterWire) {
    let (c, mut ins, _, mut outs, _): Ports = Circuit::create(&["a"], &[], &["q"], &[], name).unwrap();
    let a = ins.pop().unwrap();
    let q = outs.pop().unwrap();
    (c, a, q)
}

fn names(c: &Circuit) -> Vec<String> {
    c.wire_names().clone()
}

#[test]
fn relay_to_output_end_to_end() {
    let (mut c, a, q) = one_in_one_out("top");
    let w = c.jtl(a).unwrap();
    c.unify(w, q).unwrap();
    assert_eq!(c.gates().len(), 1);
    assert_eq!(c.gates()[0].name, "XJTL1");
    assert_eq!(c.gates()[0].kind, GateKind::Jtl);
    let mut distinct = names(&c);
    distinct.sort();
    distinct.dedup();
    assert_eq!(distinct, vec!["a".to_string(), "q".to_string()]);
    assert!(names(&c).iter().all(|n| !n.starts_with('_')));
    assert_eq!(c.finish(), Ok(()));
    let text = RsfqlibSpice::generate(&c).unwrap();
    assert_eq!(text, ".subckt top a q\nXJTL1 a q THmitll_JTL\n.ends");
    assert_eq!(text.lines().count(), 3);
}

#[test]
fn split_then_merge_end_to_end() {
    let (mut c, a, q) = one_in_one_out("top");
    let (x, y) = c.split(a).unwrap();
    let m = c.merge(x, y).unwrap();
    c.unify(m, q).unwrap();
    assert_eq!(c.gates().len(), 2);
    assert_eq!(c.gates()[0].kind, GateKind::Split);
    assert_eq!(c.gates()[1].kind, GateKind::Merge);
    assert_eq!(c.wire_names().len(), 5);
    assert_eq!(c.finish(), Ok(()));
    let text = RsfqlibVerilog::generate(&c).unwrap();
    assert_eq!(
        text,
        "module top (a, q)\ninput a;\noutput q;\nwire _XSPLIT1_q1, _XSPLIT1_q2;\n\
         THmitll_SPLIT_v3p0_extracted XSPLIT1 (a, _XSPLIT1_q1, _XSPLIT1_q2);\n\
         THmitll_MERGE_v3p0_extracted XMERGE2 (_XSPLIT1_q1, _XSPLIT1_q2, q);\nendmodule"
    );
    let wire_line = text.lines().find(|l| l.starts_with("wire ")).unwrap();
    assert_eq!(wire_line, "wire _XSPLIT1_q1, _XSPLIT1_q2;");
}

#[test]
fn every_handle_used_once_finishes() {
    let (mut c, mut ins, _, mut outs, _): Ports =
        Circuit::create(&["a", "b", "clk"], &[], &["q"], &[], "gates").unwrap();
    let clk = ins.pop().unwrap();
    let b = ins.pop().unwrap();
    let a = ins.pop().unwrap();
    let (clk1, clk2) = c.split(clk).unwrap();
    let (a1, a2) = c.split(a).unwrap();
    let x = c.and(a1, b, clk1).unwrap();
    let y = c.dff(a2, clk2).unwrap();
    let z = c.merge(x, y).unwrap();
    let z = c.buff(z).unwrap();
    c.unify(z, outs.pop().unwrap()).unwrap();
    assert_eq!(c.open_handle_count(), 0);
    assert_eq!(c.finish(), Ok(()));
    assert_eq!(c.gates().len(), 6);
}

#[test]
fn unused_handles_are_fan_violations() {
    let (c, mut ins, mut cins, mut outs, mut couts): Ports =
        Circuit::create(&["a"], &["ci"], &["q"], &["co"], "loose").unwrap();
    assert_eq!(c.finish(), Err(BuildError::Dangling(4)));
    assert_eq!(
        ins.pop().unwrap().release(),
        Err(FanViolation { drivers: 1, receivers: 0 })
    );
    assert_eq!(
        cins.pop().unwrap().release(),
        Err(FanViolation { drivers: 0, receivers: 1 })
    );
    assert_eq!(
        outs.pop().unwrap().release(),
        Err(FanViolation { drivers: 0, receivers: 1 })
    );
    assert_eq!(
        couts.pop().unwrap().release(),
        Err(FanViolation { drivers: 1, receivers: 0 })
    );
}

#[test]
fn dangling_gate_output_is_reported() {
    let (mut c, a, q) = one_in_one_out("top");
    let (x, y) = c.split(a).unwrap();
    c.unify(x, q).unwrap();
    assert_eq!(c.finish(), Err(BuildError::Dangling(1)));
    assert_eq!(y.release(), Err(FanViolation { drivers: 1, receivers: 0 }));
}

#[test]
fn circuit_ids_follow_names() {
    let (c1, _, _) = one_in_one_out("alpha");
    let (c2, _, _) = one_in_one_out("beta");
    let (c3, _, _) = one_in_one_out("alpha");
    assert_ne!(c1.id(), c2.id());
    assert_eq!(c1.id(), c3.id());
    assert_eq!(c1.id().0, twox_hash::XxHash32::oneshot(0, b"alpha"));
    assert_ne!(c1.id().0, 0);
}

#[test]
fn split_outputs_are_fresh_every_time() {
    let (mut c, a, q) = one_in_one_out("top");
    let (x1, x2) = c.split(a).unwrap();
    let (y1, y2) = c.split(x1).unwrap();
    assert_eq!(x2.wire_id(), WireID(4));
    assert_eq!(y1.wire_id(), WireID(5));
    assert_eq!(y2.wire_id(), WireID(6));
    assert_eq!(c.wire_name(WireID(5)), Some("_XSPLIT2_q1"));
    assert_eq!(c.wire_name(WireID(6)), Some("_XSPLIT2_q2"));
    assert_eq!(c.gates()[1].inputs, vec![WireID(3)]);
    assert_eq!(c.gates()[1].outputs, vec![WireID(5), WireID(6)]);
    let m = c.merge(x2, y1).unwrap();
    let m = c.merge(m, y2).unwrap();
    c.unify(m, q).unwrap();
    assert_eq!(c.finish(), Ok(()));
}

#[test]
fn labeling_in_the_call_or_after_agree() {
    let (mut c1, a1, q1) = one_in_one_out("top");
    let w1 = c1.jtl_labeld(a1, "mid").unwrap();
    let (mut c2, a2, q2) = one_in_one_out("top");
    let w2 = c2.jtl(a2).unwrap();
    c2.label(&w2, "mid").unwrap();
    assert_eq!(names(&c1), names(&c2));
    let z1 = c1.jtl(w1).unwrap();
    let z2 = c2.jtl(w2).unwrap();
    c1.unify(z1, q1).unwrap();
    c2.unify(z2, q2).unwrap();
    assert_eq!(names(&c1), names(&c2));
    assert_eq!(
        RsfqlibSpice::generate(&c1).unwrap(),
        RsfqlibSpice::generate(&c2).unwrap()
    );
}

#[test]
fn unify_same_labels_keeps_label() {
    let (mut c, a, q) = one_in_one_out("top");
    let (w, cw) = c.gen_loop("fb").unwrap();
    assert_eq!(w.wire_id(), cw.wire_id());
    let m = c.merge(a, w).unwrap();
    let (m1, m2) = c.split(m).unwrap();
    c.unify(m2, q).unwrap();
    let back = c.jtl_labeld(m1, "fb2").unwrap();
    let back_wire = back.wire_id();
    let cw_id = cw.wire_id();
    assert_eq!(c.unify(back, cw), Err(BuildError::NameConflict));
    assert_eq!(c.wire_name(back_wire), Some("fb2"));
    assert_eq!(c.wire_name(cw_id), Some("fb"));
}

#[test]
fn unify_equal_labels_succeeds() {
    let (mut c, _, _, _, _): Ports = Circuit::create(&[], &[], &[], &[], "loop").unwrap();
    let (w, cw) = c.gen_loop("fb").unwrap();
    let id = w.wire_id();
    assert_eq!(c.unify(w, cw), Ok(()));
    assert_eq!(c.wire_name(id), Some("fb"));
    assert_eq!(c.finish(), Ok(()));
}

#[test]
fn unify_prefers_user_label() {
    let (mut c, a, q) = one_in_one_out("top");
    let w = c.jtl(a).unwrap();
    let id = w.wire_id();
    assert_eq!(c.wire_name(id), Some("_XJTL1_q"));
    c.unify(w, q).unwrap();
    assert_eq!(c.wire_name(id), Some("q"));
}

#[test]
fn unify_anonymous_sides_share_forward_name() {
    let (mut c, a, q) = one_in_one_out("top");
    let w = c.jtl(a).unwrap();
    let back = c.cbuff(q).unwrap();
    let (w_id, back_id) = (w.wire_id(), back.wire_id());
    assert_eq!(c.wire_name(back_id), Some("_XBUFF2_a"));
    c.unify(w, back).unwrap();
    assert_eq!(c.wire_name(w_id), Some("_XJTL1_q"));
    assert_eq!(c.wire_name(back_id), Some("_XJTL1_q"));
    assert_eq!(c.finish(), Ok(()));
}

#[test]
fn unify_rejects_foreign_counter_wire() {
    let (mut c, a, _q) = one_in_one_out("top");
    let w = c.jtl(a).unwrap();
    let (_other, _a2, foreign) = one_in_one_out("other");
    assert_eq!(c.unify(w, foreign), Err(BuildError::Provenance));
}

#[test]
fn foreign_handle_is_rejected() {
    let (mut c1, _a1, _q1) = one_in_one_out("first");
    let (_c2, a2, _q2) = one_in_one_out("second");
    assert_eq!(c1.jtl(a2).err(), Some(BuildError::Provenance));
    assert_eq!(c1.gates().len(), 0);
}

#[test]
fn label_errors() {
    let (mut c, a, _q) = one_in_one_out("top");
    let w = c.jtl(a).unwrap();
    assert_eq!(c.label(&w, "_bad"), Err(BuildError::ReservedLabel));
    assert_eq!(c.label(&w, "good"), Ok(()));
    assert_eq!(c.label(&w, "again"), Err(BuildError::AlreadyLabeled));
    let (c2, a2, _) = one_in_one_out("elsewhere");
    assert_eq!(c.label(&a2, "x"), Err(BuildError::Provenance));
    let _ = c2;
    assert_eq!(c.wire_name(w.wire_id()), Some("good"));
}

#[test]
fn labeled_gate_rejects_reserved_label() {
    let (mut c, a, _q) = one_in_one_out("top");
    assert_eq!(c.jtl_labeld(a, "_x").err(), Some(BuildError::ReservedLabel));
    assert_eq!(c.gates().len(), 0);
    assert_eq!(c.wire_names().len(), 2);
}

#[test]
fn duplicate_names_are_rejected() {
    let r = Circuit::create(&["a", "b"], &[], &["a"], &[], "dup");
    assert_eq!(r.err().map(|e| e), Some(BuildError::NameTaken));
    let (mut c, _a, _q) = one_in_one_out("top");
    assert_eq!(c.gen_loop("a").err(), Some(BuildError::NameTaken));
    let (mut d, mut ins, _, _, _): Ports =
        Circuit::create(&["_XJTL1_q"], &[], &[], &[], "clash").unwrap();
    let x = ins.pop().unwrap();
    assert_eq!(d.jtl(x).err(), Some(BuildError::NameTaken));
}

#[test]
fn counter_flow_gates() {
    let (mut c, _, _, mut outs, _): Ports = Circuit::create(&[], &[], &["q"], &[], "cf").unwrap();
    let q = outs.pop().unwrap();
    let a = c.cbuff(q).unwrap();
    assert_eq!(a.wire_id(), WireID(2));
    assert_eq!(c.wire_name(WireID(2)), Some("_XBUFF1_a"));
    assert_eq!(c.gates()[0].kind, GateKind::Buff);
    assert_eq!(c.gates()[0].inputs, vec![WireID(2)]);
    assert_eq!(c.gates()[0].outputs, vec![WireID(1)]);
    let (fwd, back) = c.csplit(a).unwrap();
    assert_eq!(c.gates()[1].name, "XSPLIT2");
    assert_eq!(c.gates()[1].inputs, vec![WireID(4)]);
    assert_eq!(c.gates()[1].outputs, vec![WireID(2), WireID(3)]);
    assert_eq!(c.wire_name(fwd.wire_id()), Some("_XSPLIT2_q2"));
    assert_eq!(c.wire_name(back.wire_id()), Some("_XSPLIT2_a"));
    let (l, lc) = c.gen_loop("loop").unwrap();
    let joined = c.csplit2_labeled(back, lc, "src").unwrap();
    assert_eq!(c.wire_name(joined.wire_id()), Some("src"));
    assert_eq!(c.gates()[2].outputs, vec![WireID(4), WireID(5)]);
    let z = c.zero_async().unwrap();
    c.unify(z, joined).unwrap();
    let m = c.merge(fwd, l).unwrap();
    let _ = m.release();
}

#[test]
fn labeled_counter_flow_variants() {
    let (mut c, _, _, mut outs, _): Ports = Circuit::create(&[], &[], &["q"], &[], "cf").unwrap();
    let q = outs.pop().unwrap();
    let a = c.cbuff_labeled(q, "qa").unwrap();
    let (f, b) = c.csplit_labeled(a, "fw", "bk").unwrap();
    assert_eq!(c.wire_name(f.wire_id()), Some("fw"));
    assert_eq!(c.wire_name(b.wire_id()), Some("bk"));
    assert_eq!(c.wire_name(WireID(2)), Some("qa"));
    let (x, y) = {
        let (mut d, a, _q) = one_in_one_out("t");
        let r = d.split_labeld(a, "l1", "l2").unwrap();
        assert_eq!(d.wire_name(WireID(3)), Some("l1"));
        assert_eq!(d.wire_name(WireID(4)), Some("l2"));
        r
    };
    let _ = (x.release(), y.release(), f.release(), b.release());
}

#[test]
fn subcircuit_embedding() {
    let (mut child, a, q) = one_in_one_out("child");
    let w = child.jtl(a).unwrap();
    child.unify(w, q).unwrap();
    let (mut top, a, q) = one_in_one_out("top");
    let (outs, couts) = top.subcircuit(&child, vec![a], vec![]).unwrap();
    assert!(couts.is_empty());
    assert_eq!(outs.len(), 1);
    let g = &top.gates()[0];
    assert_eq!(g.kind, GateKind::Subcircuit);
    assert_eq!(g.name, "Xchild1");
    assert_eq!(g.inputs, vec![WireID(1)]);
    assert_eq!(g.outputs, vec![WireID(3)]);
    assert_eq!(g.circuit, Some("child".to_string()));
    assert_eq!(top.wire_name(WireID(3)), Some("_Xchild1_q"));
    let mut outs = outs;
    top.unify(outs.pop().unwrap(), q).unwrap();
    assert_eq!(top.finish(), Ok(()));
    assert_eq!(RsfqlibSpice::generate(&top).err(), Some(BuildError::Unsupported));
    assert_eq!(RsfqlibVerilog::generate(&top).err(), Some(BuildError::Unsupported));
}

#[test]
fn subcircuit_counter_ports() {
    let (child, _, _, _, _): Ports = Circuit::create(&["i"], &["ci"], &["o"], &["co"], "blk").unwrap();
    let (mut top, mut ins, mut cins, _, _): Ports =
        Circuit::create(&["a"], &["b"], &[], &[], "top").unwrap();
    let a = ins.pop().unwrap();
    let b = cins.pop().unwrap();
    let (outs, couts) = top.subcircuit(&child, vec![a], vec![b]).unwrap();
    let g = &top.gates()[0];
    assert_eq!(g.inputs, vec![WireID(1), WireID(4)]);
    assert_eq!(g.outputs, vec![WireID(3), WireID(2)]);
    assert_eq!(top.wire_name(WireID(3)), Some("_Xblk1_o"));
    assert_eq!(top.wire_name(WireID(4)), Some("_Xblk1_co"));
    assert_eq!(outs[0].wire_id(), WireID(3));
    assert_eq!(couts[0].wire_id(), WireID(4));
}

#[test]
fn gate_numbers_past_nine() {
    let (mut c, a, q) = one_in_one_out("chain");
    let mut w = a;
    for _ in 0..12 {
        w = c.jtl(w).unwrap();
    }
    assert_eq!(c.gates()[9].name, "XJTL10");
    assert_eq!(c.gates()[11].name, "XJTL12");
    assert_eq!(c.wire_name(w.wire_id()), Some("_XJTL12_q"));
    c.unify(w, q).unwrap();
    assert_eq!(c.finish(), Ok(()));
}

#[test]
fn netlist_cells_and_port_order() {
    let (mut c, mut ins, mut cins, mut outs, _): Ports =
        Circuit::create(&["a", "clk"], &["ci"], &["q"], &[], "mix").unwrap();
    let clk = ins.pop().unwrap();
    let a = ins.pop().unwrap();
    let n = c.not(a, clk).unwrap();
    c.unify(n, outs.pop().unwrap()).unwrap();
    let z = c.zero_async().unwrap();
    c.unify(z, cins.pop().unwrap()).unwrap();
    assert_eq!(c.finish(), Ok(()));
    let text = RsfqlibSpice::generate(&c).unwrap();
    assert_eq!(
        text,
        ".subckt mix a clk q ci\nXNOT1 a clk q THmitll_NOT\nXZERO_ASYNC2 ci THmitll_ALWAYS0_ASYNC_NOA\n.ends"
    );
    let v = RsfqlibVerilog::generate(&c).unwrap();
    assert_eq!(
        v,
        "module mix (a, clk, ci, q)\ninput a, clk, ci;\noutput q;\n\
         THmitll_NOT_v3p0_extracted XNOT1 (a, clk, q);\n\
         THmitll_ALWAYS0_ASYNC_NOA XZERO_ASYNC2 (ci);\nendmodule"
    );
}

#[test]
fn counter_outputs_are_declared_as_outputs() {
    let (mut c, _, mut cins, _, mut couts): Ports =
        Circuit::create(&[], &["ci"], &[], &["co"], "m").unwrap();
    let w = c.jtl(couts.pop().unwrap()).unwrap();
    c.unify(w, cins.pop().unwrap()).unwrap();
    assert_eq!(c.finish(), Ok(()));
    let v = RsfqlibVerilog::generate(&c).unwrap();
    assert_eq!(
        v,
        "module m (ci, co)\ninput ci;\noutput co;\nTHmitll_JTL_v3p0_extracted XJTL1 (co, ci);\nendmodule"
    );
}

#[test]
fn gen_loop_rejects_reserved_label() {
    let (mut c, _a, _q) = one_in_one_out("top");
    assert_eq!(c.gen_loop("_x").err(), Some(BuildError::ReservedLabel));
    assert_eq!(c.wire_names().len(), 2);
}

#[test]
fn verilog_wires_sorted_and_unique() {
    let (mut c, a, q) = one_in_one_out("srt");
    let (x, y) = c.split_labeld(a, "zeta", "alpha").unwrap();
    let m = c.merge_labeled(x, y, "mid").unwrap();
    let (l, lc) = c.gen_loop("beta").unwrap();
    let k = c.merge(m, l).unwrap();
    let (k1, k2) = c.split(k).unwrap();
    c.unify(k1, lc).unwrap();
    c.unify(k2, q).unwrap();
    let v = RsfqlibVerilog::generate(&c).unwrap();
    let wire_line = v.lines().find(|l| l.starts_with("wire ")).unwrap();
    assert_eq!(wire_line, "wire _XMERGE3_q, alpha, beta, mid, zeta;");
    assert_eq!(c.finish(), Ok(()));
}

#[test]
fn clocked_gates_have_their_pins_in_order() {
    let (mut c, mut ins, _, _, _): Ports =
        Circuit::create(&["a", "b", "clk"], &[], &[], &[], "logic").unwrap();
    let clk = ins.pop().unwrap();
    let b = ins.pop().unwrap();
    let a = ins.pop().unwrap();
    let o = c.xnor_labeled(a, b, clk, "o").unwrap();
    assert_eq!(c.gates()[0].name, "XXNOR1");
    assert_eq!(c.gates()[0].inputs, vec![WireID(1), WireID(2), WireID(3)]);
    assert_eq!(c.gates()[0].outputs, vec![WireID(4)]);
    assert_eq!(c.wire_name(o.wire_id()), Some("o"));
    let _ = o.release();
}
