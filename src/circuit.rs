//! The circuit builder: the name registry, the list of gates, and one
//! constructor per gate kind.
use vstd::prelude::*;
use crate::error::BuildError;
use crate::gate::{kind_str, kind_word, Gate, GateKind, GateView};
use crate::hash::{hash_name, xxh32_of_name};
use crate::id::{CircuitID, WireID};
use crate::names::{
    gate_name, is_reserved, make_gate_name, make_port_wire_name, port_wire_name, reserved,
};
use crate::wire::{consume_counter_wire, consume_wire, CounterWire, HasWireID, Wire};

verus! {

/// A circuit under construction. Wire `i` (counting from 1) is named by
/// entry `i - 1` of the registry.
pub struct Circuit {
    name: String,
    id: CircuitID,
    inputs: Vec<String>,
    counter_inputs: Vec<String>,
    outputs: Vec<String>,
    counter_outputs: Vec<String>,
    wire_names: Vec<String>,
    gates: Vec<Gate>,
    next_gate_id: u32,
    open_handles: u64,
}

/// The views of a list of strings.
pub open spec fn views(v: Seq<String>) -> Seq<Seq<char>> {
    v.map_values(|s: String| s@)
}

/// The views of a list of string slices.
pub open spec fn strs(v: Seq<&str>) -> Seq<Seq<char>> {
    v.map_values(|s: &str| s@)
}

/// A repetition in a prefix is a repetition in the whole.
proof fn lemma_prefix_repeats<A>(a: Seq<A>, b: Seq<A>)
    requires
        !a.no_duplicates(),
    ensures
        !(a + b).no_duplicates(),
{
    let (i, j) = choose|i: int, j: int| 0 <= i < a.len() && 0 <= j < a.len() && i != j && a[i] == a[j];
    assert((a + b)[i] == a[i]);
    assert((a + b)[j] == a[j]);
}

/// Owned copies of a list of string slices.
fn owned(v: &[&str]) -> (r: Vec<String>)
    ensures
        views(r@) == strs(v@),
{
    let mut out: Vec<String> = Vec::new();
    let mut i: usize = 0;
    while i < v.len()
        invariant
            0 <= i <= v@.len(),
            views(out@) == strs(v@).subrange(0, i as int),
        decreases v@.len() - i,
    {
        let ghost prev = out@;
        out.push(String::from_str(v[i]));
        i = i + 1;
        proof {
            assert(views(out@) =~= views(prev).push(v@[i - 1]@));
            assert(views(out@) =~= strs(v@).subrange(0, i as int));
        }
    }
    proof {
        assert(strs(v@).subrange(0, i as int) =~= strs(v@));
    }
    out
}

/// The port names of a circuit, in the order in which their wires are
/// registered: inputs, counter-inputs, outputs, counter-outputs.
pub open spec fn port_names(
    inputs: Seq<&str>,
    counter_inputs: Seq<&str>,
    outputs: Seq<&str>,
    counter_outputs: Seq<&str>,
) -> Seq<Seq<char>> {
    strs(inputs) + strs(counter_inputs) + strs(outputs) + strs(counter_outputs)
}

/// `ws` are open forward handles of circuit `c` on the wires that follow
/// wire `start`, in order.
pub open spec fn open_wires_from(ws: Seq<Wire>, c: CircuitID, start: nat) -> bool {
    forall|i: int|
        0 <= i < ws.len() ==> {
            &&& (#[trigger] ws[i]).wid() == WireID((start + 1 + i) as u32)
            &&& ws[i].cid() == c
            &&& ws[i].is_open()
        }
}

/// `ws` are open counter-flow handles of circuit `c` on the wires that
/// follow wire `start`, in order.
pub open spec fn open_counter_wires_from(ws: Seq<CounterWire>, c: CircuitID, start: nat) -> bool {
    forall|i: int|
        0 <= i < ws.len() ==> {
            &&& (#[trigger] ws[i]).wid() == WireID((start + 1 + i) as u32)
            &&& ws[i].cid() == c
            &&& ws[i].is_open()
        }
}

/// The identifiers of the `n` wires that follow wire `start`.
pub open spec fn id_run(start: nat, n: nat) -> Seq<WireID> {
    Seq::new(n, |i: int| WireID((start + 1 + i) as u32))
}

/// The anonymous names of the ports `ports` of a gate named `g`.
pub open spec fn port_wire_names(g: Seq<char>, ports: Seq<Seq<char>>) -> Seq<Seq<char>> {
    ports.map_values(|p: Seq<char>| port_wire_name(g, p))
}

/// The identifiers `WireID(start + 1)`, ..., `WireID(start + n)`.
fn id_range(start: u32, n: usize) -> (r: Vec<WireID>)
    requires
        start + n < u32::MAX,
    ensures
        r@ == id_run(start as nat, n as nat),
{
    let mut out: Vec<WireID> = Vec::new();
    let mut i: usize = 0;
    while i < n
        invariant
            0 <= i <= n,
            start + n < u32::MAX,
            out@ == id_run(start as nat, i as nat),
        decreases n - i,
    {
        out.push(WireID(start + 1 + i as u32));
        i = i + 1;
        proof {
            assert(out@ =~= id_run(start as nat, i as nat));
        }
    }
    out
}

/// The identifiers of a list of forward handles.
pub open spec fn wire_ids(ws: Seq<Wire>) -> Seq<WireID> {
    ws.map_values(|w: Wire| w.wid())
}

/// The identifiers of a list of counter-flow handles.
pub open spec fn counter_wire_ids(ws: Seq<CounterWire>) -> Seq<WireID> {
    ws.map_values(|w: CounterWire| w.wid())
}

/// The views of a list of optional labels.
pub open spec fn label_views(v: Seq<Option<&str>>) -> Seq<Option<Seq<char>>> {
    v.map_values(
        |o: Option<&str>|
            match o {
                Some(l) => Some(l@),
                None => None,
            },
    )
}

/// The names that new wires receive: the label where one is given, else
/// the generated name.
fn pick_names(fresh: &Vec<String>, labels: &Vec<Option<&str>>) -> (r: Vec<String>)
    ensures
        views(r@) == chosen_names(views(fresh@), label_views(labels@)),
        r@.len() == fresh@.len(),
{
    let ghost fv = views(fresh@);
    let ghost lv = label_views(labels@);
    let mut out: Vec<String> = Vec::new();
    let mut i: usize = 0;
    while i < fresh.len()
        invariant
            0 <= i <= fresh@.len(),
            fv == views(fresh@),
            lv == label_views(labels@),
            views(out@) == chosen_names(fv, lv).subrange(0, i as int),
            out@.len() == i,
        decreases fresh@.len() - i,
    {
        let picked = if i < labels.len() {
            match labels[i] {
                Some(l) => {
                    assert(lv[i as int] == Some(l@));
                    String::from_str(l)
                },
                None => {
                    assert(lv[i as int] is None);
                    fresh[i].clone()
                },
            }
        } else {
            fresh[i].clone()
        };
        proof {
            assert(fv[i as int] == fresh@[i as int]@);
            assert(picked@ == chosen_names(fv, lv)[i as int]);
        }
        let ghost prev = out@;
        out.push(picked);
        i = i + 1;
        proof {
            assert(views(out@) =~= views(prev).push(picked@));
            assert(views(out@) =~= chosen_names(fv, lv).subrange(0, i as int));
        }
    }
    proof {
        assert(chosen_names(fv, lv).subrange(0, i as int) =~= chosen_names(fv, lv));
    }
    out
}

/// The names that new wires receive: the label where one is given, else
/// the generated name.
pub open spec fn chosen_names(fresh: Seq<Seq<char>>, labels: Seq<Option<Seq<char>>>) -> Seq<
    Seq<char>,
> {
    Seq::new(
        fresh.len(),
        |i: int|
            if i < labels.len() && labels[i] is Some {
                labels[i]->Some_0
            } else {
                fresh[i]
            },
    )
}

impl Circuit {
    pub closed spec fn name_view(&self) -> Seq<char> {
        self.name@
    }

    pub closed spec fn cid(&self) -> CircuitID {
        self.id
    }

    pub closed spec fn input_names(&self) -> Seq<Seq<char>> {
        views(self.inputs@)
    }

    pub closed spec fn counter_input_names(&self) -> Seq<Seq<char>> {
        views(self.counter_inputs@)
    }

    pub closed spec fn output_names(&self) -> Seq<Seq<char>> {
        views(self.outputs@)
    }

    pub closed spec fn counter_output_names(&self) -> Seq<Seq<char>> {
        views(self.counter_outputs@)
    }

    /// The registry: entry `i` is the display name of wire `i + 1`.
    pub closed spec fn names(&self) -> Seq<Seq<char>> {
        views(self.wire_names@)
    }

    pub closed spec fn gate_list(&self) -> Seq<GateView> {
        self.gates@.map_values(|g: Gate| g@)
    }

    /// The number of the next gate.
    pub closed spec fn next_gate(&self) -> nat {
        self.next_gate_id as nat
    }

    /// How many handles of this circuit the caller still holds.
    pub closed spec fn open_handles(&self) -> nat {
        self.open_handles as nat
    }

    /// Every gate refers only to registered wires; the counters fit.
    pub closed spec fn wf(&self) -> bool {
        &&& self.id == CircuitID(xxh32_of_name(self.name@))
        &&& self.wire_names@.len() < u32::MAX
        &&& self.open_handles <= 2 * self.wire_names@.len()
        &&& self.next_gate_id >= 1
        &&& forall|g: int, k: int|
            0 <= g < self.gate_list().len() && 0 <= k < self.gate_list()[g].inputs.len()
                ==> self.knows(#[trigger] self.gate_list()[g].inputs[k])
        &&& forall|g: int, k: int|
            0 <= g < self.gate_list().len() && 0 <= k < self.gate_list()[g].outputs.len()
                ==> self.knows(#[trigger] self.gate_list()[g].outputs[k])
    }

    /// The name, identifier and ports are those of `o`.
    pub open spec fn same_frame(&self, o: &Circuit) -> bool {
        &&& self.name_view() == o.name_view()
        &&& self.cid() == o.cid()
        &&& self.input_names() == o.input_names()
        &&& self.counter_input_names() == o.counter_input_names()
        &&& self.output_names() == o.output_names()
        &&& self.counter_output_names() == o.counter_output_names()
    }

    /// Whether a wire of this identifier is registered.
    pub open spec fn knows(&self, w: WireID) -> bool {
        1 <= w.0 <= self.names().len()
    }

    /// The display name of a registered wire.
    pub open spec fn name_of(&self, w: WireID) -> Seq<char> {
        self.names()[w.0 - 1]
    }

    /// Whether some wire already has the name `s`.
    pub open spec fn taken(&self, s: Seq<char>) -> bool {
        self.names().contains(s)
    }

    /// The identifier that the next new wire receives.
    pub open spec fn next_id(&self) -> WireID {
        WireID((self.names().len() + 1) as u32)
    }

    /// Room for `k` more wires and one more gate.
    pub open spec fn has_room(&self, k: nat) -> bool {
        self.names().len() + k < u32::MAX && self.next_gate() < u32::MAX
    }

    /// The name of the next gate of kind `kind`.
    pub open spec fn next_gate_name(&self, kind: GateKind) -> Seq<char> {
        gate_name(kind_word(kind), self.next_gate())
    }

    /// A forward handle of this circuit on a registered wire.
    pub open spec fn owns_wire(&self, w: Wire) -> bool {
        w.cid() == self.cid() && self.knows(w.wid())
    }

    /// A counter-flow handle of this circuit on a registered wire.
    pub open spec fn owns_counter_wire(&self, w: CounterWire) -> bool {
        w.cid() == self.cid() && self.knows(w.wid())
    }

    /// A name that a caller may give a wire: not reserved and not in use.
    pub open spec fn fresh_label(&self, l: Seq<char>) -> bool {
        !is_reserved(l) && !self.taken(l)
    }

    /// The generated name of port `port` of the next gate of kind `kind`.
    pub open spec fn next_port_name(&self, kind: GateKind, port: Seq<char>) -> Seq<char> {
        port_wire_name(self.next_gate_name(kind), port)
    }

    /// The outcome of a gate with one output `q`, taking the forward inputs
    /// `ins`, and named `label` where one is given.
    pub open spec fn single_outcome(
        &self,
        new: &Circuit,
        kind: GateKind,
        ins: Seq<Wire>,
        label: Option<Seq<char>>,
        r: Result<Wire, BuildError>,
    ) -> bool {
        let g = self.next_gate_name(kind);
        let fresh = seq![port_wire_name(g, seq!['q'])];
        let labels = match label {
            Some(l) => seq![Some(l)],
            None => seq![],
        };
        match self.first_error(ins.map_values(|w: Wire| w.cid()), wire_ids(ins), fresh, labels) {
            Some(e) => r == Err::<Wire, BuildError>(e) && *new == *self,
            None => {
                &&& r is Ok
                &&& r->Ok_0.wid() == self.next_id()
                &&& r->Ok_0.cid() == self.cid()
                &&& r->Ok_0.is_open()
                &&& self.extended(
                    new,
                    chosen_names(fresh, labels),
                    GateView {
                        kind,
                        name: g,
                        inputs: wire_ids(ins),
                        outputs: seq![self.next_id()],
                        circuit: None,
                    },
                    ins.len(),
                    1,
                )
            },
        }
    }

    /// Whether a wire of this identifier is registered.
    pub fn is_known(&self, w: WireID) -> (r: bool)
        ensures
            r == self.knows(w),
    {
        1 <= w.0 && (w.0 as usize) <= self.wire_names.len()
    }

    /// The identifier of the `i`-th wire added after the present ones.
    pub open spec fn fresh_id(&self, i: int) -> WireID {
        WireID((self.names().len() + 1 + i) as u32)
    }

    /// The first check that a gate fails, in the order: provenance of the
    /// handles, registration of their wires, freshness of the new names,
    /// and the user labels; `None` when all pass.
    pub open spec fn first_error(
        &self,
        cids: Seq<CircuitID>,
        ids: Seq<WireID>,
        fresh: Seq<Seq<char>>,
        labels: Seq<Option<Seq<char>>>,
    ) -> Option<BuildError> {
        if exists|i: int| 0 <= i < cids.len() && #[trigger] cids[i] != self.cid() {
            Some(BuildError::Provenance)
        } else if exists|i: int| 0 <= i < ids.len() && !self.knows(#[trigger] ids[i]) {
            Some(BuildError::UnknownWire)
        } else if exists|i: int| 0 <= i < fresh.len() && self.taken(#[trigger] fresh[i]) {
            Some(BuildError::NameTaken)
        } else if !fresh.no_duplicates() {
            Some(BuildError::NameTaken)
        } else if exists|i: int|
            0 <= i < labels.len() && (#[trigger] labels[i]) is Some && is_reserved(
                labels[i]->Some_0,
            ) {
            Some(BuildError::ReservedLabel)
        } else {
            None
        }
    }

    /// After a successful gate: the new wires are registered under `added`,
    /// gate `gv` is appended, `consumed` handles were taken and `issued`
    /// handed out.
    pub open spec fn extended(
        &self,
        new: &Circuit,
        added: Seq<Seq<char>>,
        gv: GateView,
        consumed: nat,
        issued: nat,
    ) -> bool {
        &&& new.names() == self.names() + added
        &&& new.gate_list() == self.gate_list().push(gv)
        &&& new.next_gate() == self.next_gate() + 1
        &&& new.open_handles() + consumed == self.open_handles() + issued
        &&& new.same_frame(self)
    }

    /// The outcome of `split`: two forward outputs from one forward input.
    pub open spec fn split_outcome(
        &self,
        new: &Circuit,
        a: Wire,
        labels: Seq<Option<Seq<char>>>,
        r: Result<(Wire, Wire), BuildError>,
    ) -> bool {
        let g = self.next_gate_name(GateKind::Split);
        let fresh = seq![port_wire_name(g, seq!['q', '1']), port_wire_name(g, seq!['q', '2'])];
        match self.first_error(seq![a.cid()], seq![a.wid()], fresh, labels) {
            Some(e) => r == Err::<(Wire, Wire), BuildError>(e) && *new == *self,
            None => {
                &&& r is Ok
                &&& r->Ok_0.0.wid() == self.fresh_id(0) && r->Ok_0.1.wid() == self.fresh_id(1)
                &&& r->Ok_0.0.cid() == self.cid() && r->Ok_0.1.cid() == self.cid()
                &&& r->Ok_0.0.is_open() && r->Ok_0.1.is_open()
                &&& self.extended(
                    new,
                    chosen_names(fresh, labels),
                    GateView {
                        kind: GateKind::Split,
                        name: g,
                        inputs: seq![a.wid()],
                        outputs: seq![self.fresh_id(0), self.fresh_id(1)],
                        circuit: None,
                    },
                    1,
                    2,
                )
            },
        }
    }

    /// The outcome of `cbuff`: a buffer driving the counter-flow handle `q`,
    /// whose input is handed back as a new counter-flow handle.
    pub open spec fn cbuff_outcome(
        &self,
        new: &Circuit,
        q: CounterWire,
        labels: Seq<Option<Seq<char>>>,
        r: Result<CounterWire, BuildError>,
    ) -> bool {
        let g = self.next_gate_name(GateKind::Buff);
        let fresh = seq![port_wire_name(g, seq!['a'])];
        match self.first_error(seq![q.cid()], seq![q.wid()], fresh, labels) {
            Some(e) => r == Err::<CounterWire, BuildError>(e) && *new == *self,
            None => {
                &&& r is Ok
                &&& r->Ok_0.wid() == self.fresh_id(0)
                &&& r->Ok_0.cid() == self.cid()
                &&& r->Ok_0.is_open()
                &&& self.extended(
                    new,
                    chosen_names(fresh, labels),
                    GateView {
                        kind: GateKind::Buff,
                        name: g,
                        inputs: seq![self.fresh_id(0)],
                        outputs: seq![q.wid()],
                        circuit: None,
                    },
                    1,
                    1,
                )
            },
        }
    }

    /// The outcome of `csplit`: a split driving the counter-flow handle `q1`
    /// and a new forward output `q2`; its input comes back as a new
    /// counter-flow handle.
    pub open spec fn csplit_outcome(
        &self,
        new: &Circuit,
        q1: CounterWire,
        labels: Seq<Option<Seq<char>>>,
        r: Result<(Wire, CounterWire), BuildError>,
    ) -> bool {
        let g = self.next_gate_name(GateKind::Split);
        let fresh = seq![port_wire_name(g, seq!['q', '2']), port_wire_name(g, seq!['a'])];
        match self.first_error(seq![q1.cid()], seq![q1.wid()], fresh, labels) {
            Some(e) => r == Err::<(Wire, CounterWire), BuildError>(e) && *new == *self,
            None => {
                &&& r is Ok
                &&& r->Ok_0.0.wid() == self.fresh_id(0) && r->Ok_0.1.wid() == self.fresh_id(1)
                &&& r->Ok_0.0.cid() == self.cid() && r->Ok_0.1.cid() == self.cid()
                &&& r->Ok_0.0.is_open() && r->Ok_0.1.is_open()
                &&& self.extended(
                    new,
                    chosen_names(fresh, labels),
                    GateView {
                        kind: GateKind::Split,
                        name: g,
                        inputs: seq![self.fresh_id(1)],
                        outputs: seq![q1.wid(), self.fresh_id(0)],
                        circuit: None,
                    },
                    1,
                    2,
                )
            },
        }
    }

    /// The outcome of `csplit2`: a split driving the counter-flow handles
    /// `q1` and `q2`, whose input comes back as a new counter-flow handle.
    pub open spec fn csplit2_outcome(
        &self,
        new: &Circuit,
        q1: CounterWire,
        q2: CounterWire,
        labels: Seq<Option<Seq<char>>>,
        r: Result<CounterWire, BuildError>,
    ) -> bool {
        let g = self.next_gate_name(GateKind::Split);
        let fresh = seq![port_wire_name(g, seq!['a'])];
        match self.first_error(seq![q1.cid(), q2.cid()], seq![q1.wid(), q2.wid()], fresh, labels) {
            Some(e) => r == Err::<CounterWire, BuildError>(e) && *new == *self,
            None => {
                &&& r is Ok
                &&& r->Ok_0.wid() == self.fresh_id(0)
                &&& r->Ok_0.cid() == self.cid()
                &&& r->Ok_0.is_open()
                &&& self.extended(
                    new,
                    chosen_names(fresh, labels),
                    GateView {
                        kind: GateKind::Split,
                        name: g,
                        inputs: seq![self.fresh_id(0)],
                        outputs: seq![q1.wid(), q2.wid()],
                        circuit: None,
                    },
                    2,
                    1,
                )
            },
        }
    }

    /// New names made of generated names, each replaced by a distinct fresh
    /// user label where one is given, are fresh and distinct.
    proof fn lemma_chosen_fresh(&self, fresh: Seq<Seq<char>>, labels: Seq<Option<Seq<char>>>)
        requires
            forall|i: int| 0 <= i < fresh.len() ==> !self.taken(#[trigger] fresh[i]),
            forall|i: int| 0 <= i < fresh.len() ==> is_reserved(#[trigger] fresh[i]),
            fresh.no_duplicates(),
            labels.len() <= fresh.len(),
            forall|i: int|
                0 <= i < labels.len() ==> (#[trigger] labels[i]) is Some && self.fresh_label(
                    labels[i]->Some_0,
                ),
            forall|i: int, j: int| 0 <= i < j < labels.len() ==> labels[i] != labels[j],
        ensures
            forall|i: int|
                0 <= i < fresh.len() ==> !self.taken(#[trigger] chosen_names(fresh, labels)[i]),
            chosen_names(fresh, labels).no_duplicates(),
    {
        let c = chosen_names(fresh, labels);
        assert forall|i: int| 0 <= i < fresh.len() implies !self.taken(#[trigger] c[i]) by {
            if i < labels.len() {
                assert(labels[i] is Some);
            }
        }
        assert forall|i: int, j: int| 0 <= i < c.len() && 0 <= j < c.len() && i != j implies c[i]
            != c[j] by {
            if i < labels.len() && j < labels.len() {
                if i < j {
                    assert(labels[i] != labels[j]);
                } else {
                    assert(labels[j] != labels[i]);
                }
                assert(labels[i] is Some && labels[j] is Some);
            } else if i < labels.len() {
                assert(labels[i] is Some);
                assert(is_reserved(fresh[j]));
            } else if j < labels.len() {
                assert(labels[j] is Some);
                assert(is_reserved(fresh[i]));
            }
        }
    }

    /// Computes `first_error`.
    #[verifier::loop_isolation(false)]
    fn precheck(
        &self,
        cids: Vec<CircuitID>,
        ids: Vec<WireID>,
        fresh: &Vec<String>,
        labels: &Vec<Option<&str>>,
    ) -> (r: Option<BuildError>)
        ensures
            r == self.first_error(cids@, ids@, views(fresh@), label_views(labels@)),
    {
        let ghost fv = views(fresh@);
        let ghost lv = label_views(labels@);
        let mut i: usize = 0;
        while i < cids.len()
            invariant
                0 <= i <= cids@.len(),
                forall|j: int| 0 <= j < i ==> #[trigger] cids@[j] == self.cid(),
            decreases cids@.len() - i,
        {
            if cids[i] != self.id {
                assert(cids@[i as int] != self.cid());
                return Some(BuildError::Provenance);
            }
            i = i + 1;
        }
        let mut i: usize = 0;
        while i < ids.len()
            invariant
                0 <= i <= ids@.len(),
                forall|j: int| 0 <= j < i ==> self.knows(#[trigger] ids@[j]),
            decreases ids@.len() - i,
        {
            if !self.is_known(ids[i]) {
                assert(!self.knows(ids@[i as int]));
                return Some(BuildError::UnknownWire);
            }
            i = i + 1;
        }
        let mut i: usize = 0;
        while i < fresh.len()
            invariant
                0 <= i <= fresh@.len(),
                fv == views(fresh@),
                forall|j: int| 0 <= j < i ==> !self.taken(#[trigger] fv[j]),
            decreases fresh@.len() - i,
        {
            if self.has_name(&fresh[i]) {
                assert(fv[i as int] == fresh@[i as int]@);
                assert(self.taken(fv[i as int]));
                return Some(BuildError::NameTaken);
            }
            i = i + 1;
        }
        let mut i: usize = 0;
        while i < fresh.len()
            invariant
                0 <= i <= fresh@.len(),
                fv == views(fresh@),
                forall|j: int, k: int| 0 <= j < k < i ==> fv[j] != fv[k],
            decreases fresh@.len() - i,
        {
            let mut k: usize = 0;
            while k < i
                invariant
                    0 <= k <= i < fresh@.len(),
                    fv == views(fresh@),
                    forall|j: int| 0 <= j < k ==> fv[j] != fv[i as int],
                decreases i - k,
            {
                if fresh[k] == fresh[i] {
                    assert(fv[k as int] == fresh@[k as int]@);
                    assert(fv[i as int] == fresh@[i as int]@);
                    assert(fv[k as int] == fv[i as int]);
                    return Some(BuildError::NameTaken);
                }
                k = k + 1;
            }
            i = i + 1;
        }
        let mut i: usize = 0;
        while i < labels.len()
            invariant
                0 <= i <= labels@.len(),
                lv == label_views(labels@),
                forall|j: int|
                    0 <= j < i ==> !((#[trigger] lv[j]) is Some && is_reserved(lv[j]->Some_0)),
            decreases labels@.len() - i,
        {
            match labels[i] {
                Some(l) => {
                    if reserved(l) {
                        assert(lv[i as int] == Some(l@));
                        return Some(BuildError::ReservedLabel);
                    }
                },
                None => {},
            }
            i = i + 1;
        }
        None
    }

    /// Registers new wires under the names `added`, in order.
    fn register(&mut self, added: Vec<String>)
        requires
            old(self).wf(),
            forall|i: int| 0 <= i < added@.len() ==> !old(self).taken(#[trigger] views(added@)[i]),
            views(added@).no_duplicates(),
            old(self).names().len() + added@.len() < u32::MAX,
        ensures
            final(self).wf(),
            final(self).names() == old(self).names() + views(added@),
            final(self).gate_list() == old(self).gate_list(),
            final(self).next_gate() == old(self).next_gate(),
            final(self).open_handles() == old(self).open_handles(),
            final(self).same_frame(old(self)),
    {
        let ghost av = views(added@);
        let mut rest = added;
        let mut k: usize = 0;
        let ghost n = rest@.len();
        while rest.len() > 0
            invariant
                self.wf(),
                k + rest@.len() == n,
                n == av.len(),
                av == views(added@),
                forall|i: int| 0 <= i < n ==> !old(self).taken(#[trigger] av[i]),
                av.no_duplicates(),
                old(self).names().len() + n < u32::MAX,
                views(rest@) == av.subrange(k as int, n as int),
                self.names() == old(self).names() + av.subrange(0, k as int),
                self.gate_list() == old(self).gate_list(),
                self.next_gate() == old(self).next_gate(),
                self.open_handles() == old(self).open_handles(),
                self.same_frame(old(self)),
            decreases rest@.len(),
        {
            let ghost before = rest@;
            let name = rest.remove(0);
            proof {
                assert(views(before)[0] == before[0]@);
                assert(av.subrange(k as int, n as int)[0] == av[k as int]);
                assert(name@ == av[k as int]);
                assert(!self.taken(name@)) by {
                    if self.taken(name@) {
                        let j = choose|j: int| 0 <= j < self.names().len() && self.names()[j] == name@;
                        if j < old(self).names().len() {
                            assert(old(self).names()[j] == name@);
                            assert(old(self).taken(av[k as int]));
                        } else {
                            assert(av[j - old(self).names().len()] == av[k as int]);
                        }
                    }
                }
                assert(rest@ =~= before.subrange(1, before.len() as int));
                assert forall|j: int| 0 <= j < rest@.len() implies views(rest@)[j] == av[k + 1 + j] by {
                    assert(views(before)[j + 1] == before[j + 1]@);
                    assert(av.subrange(k as int, n as int)[j + 1] == av[k + 1 + j]);
                }
                assert(views(rest@) =~= av.subrange(k + 1, n as int));
            }
            self.add_wire(name);
            k = k + 1;
            proof {
                assert(self.names() =~= old(self).names() + av.subrange(0, k as int));
            }
        }
        proof {
            assert(av.subrange(0, n as int) =~= av);
        }
    }

    /// Consumes one open forward handle of a registered wire.
    fn take_wire(&mut self, w: Wire) -> (r: WireID)
        requires
            old(self).wf(),
            old(self).open_handles() >= 1,
            w.is_open(),
        ensures
            final(self).wf(),
            r == w.wid(),
            final(self).names() == old(self).names(),
            final(self).gate_list() == old(self).gate_list(),
            final(self).next_gate() == old(self).next_gate(),
            final(self).open_handles() + 1 == old(self).open_handles(),
            final(self).same_frame(old(self)),
    {
        self.open_handles = self.open_handles - 1;
        consume_wire(w)
    }

    /// Consumes one open counter-flow handle of a registered wire.
    fn take_counter_wire(&mut self, w: CounterWire) -> (r: WireID)
        requires
            old(self).wf(),
            old(self).open_handles() >= 1,
            w.is_open(),
        ensures
            final(self).wf(),
            r == w.wid(),
            final(self).names() == old(self).names(),
            final(self).gate_list() == old(self).gate_list(),
            final(self).next_gate() == old(self).next_gate(),
            final(self).open_handles() + 1 == old(self).open_handles(),
            final(self).same_frame(old(self)),
    {
        self.open_handles = self.open_handles - 1;
        consume_counter_wire(w)
    }

    /// Hands out `k` new handles.
    fn issue(&mut self, k: u64)
        requires
            old(self).wf(),
            old(self).open_handles() + k <= 2 * old(self).names().len(),
        ensures
            final(self).wf(),
            final(self).names() == old(self).names(),
            final(self).gate_list() == old(self).gate_list(),
            final(self).next_gate() == old(self).next_gate(),
            final(self).open_handles() == old(self).open_handles() + k,
            final(self).same_frame(old(self)),
    {
        assert(self.names().len() == self.wire_names@.len());
        self.open_handles = self.open_handles + k;
    }

    /// Appends a gate whose ports are all registered, and advances the
    /// gate counter.
    fn push_gate(&mut self, gate: Gate)
        requires
            old(self).wf(),
            old(self).next_gate() < u32::MAX,
            forall|k: int| 0 <= k < gate.inputs@.len() ==> old(self).knows(#[trigger] gate.inputs@[k]),
            forall|k: int| 0 <= k < gate.outputs@.len() ==> old(self).knows(#[trigger] gate.outputs@[k]),
        ensures
            final(self).wf(),
            final(self).names() == old(self).names(),
            final(self).gate_list() == old(self).gate_list().push(gate@),
            final(self).next_gate() == old(self).next_gate() + 1,
            final(self).open_handles() == old(self).open_handles(),
            final(self).same_frame(old(self)),
    {
        let ghost gv = gate@;
        self.gates.push(gate);
        self.next_gate_id = self.next_gate_id + 1;
        proof {
            assert(self.gate_list() =~= old(self).gate_list().push(gv));
            let gl = self.gate_list();
            assert forall|g: int, k: int|
                0 <= g < gl.len() && 0 <= k < gl[g].inputs.len() implies self.knows(
                #[trigger] gl[g].inputs[k],
            ) by {
                if g < gl.len() - 1 {
                    assert(gl[g] == old(self).gate_list()[g]);
                }
            }
            assert forall|g: int, k: int|
                0 <= g < gl.len() && 0 <= k < gl[g].outputs.len() implies self.knows(
                #[trigger] gl[g].outputs[k],
            ) by {
                if g < gl.len() - 1 {
                    assert(gl[g] == old(self).gate_list()[g]);
                }
            }
        }
    }

    /// A new forward handle of this circuit, driven once.
    fn open_wire(&self, id: WireID) -> (r: Wire)
        ensures
            r.wid() == id,
            r.cid() == self.cid(),
            r.is_open(),
    {
        let mut w = Wire::new(id, self.id);
        w.drive();
        w
    }

    /// A new counter-flow handle of this circuit, received once.
    fn open_counter_wire(&self, id: WireID) -> (r: CounterWire)
        ensures
            r.wid() == id,
            r.cid() == self.cid(),
            r.is_open(),
    {
        let mut w = CounterWire::new(id, self.id);
        w.receive();
        w
    }

    /// The identifier of the `i`-th wire added after the present ones.
    fn fresh(&self, i: u32) -> (r: WireID)
        requires
            self.wf(),
            self.names().len() + 1 + i <= u32::MAX,
        ensures
            r == self.fresh_id(i as int),
    {
        assert(self.names().len() == self.wire_names@.len());
        WireID(self.wire_names.len() as u32 + 1 + i)
    }

    /// Whether some wire already has the name `s`.
    fn has_name(&self, s: &String) -> (r: bool)
        ensures
            r == self.taken(s@),
    {
        let mut i: usize = 0;
        while i < self.wire_names.len()
            invariant
                0 <= i <= self.wire_names@.len(),
                forall|j: int| 0 <= j < i ==> self.names()[j] != s@,
            decreases self.wire_names@.len() - i,
        {
            if self.wire_names[i] == *s {
                assert(self.names()[i as int] == s@);
                return true;
            }
            i = i + 1;
        }
        assert(!self.taken(s@)) by {
            if self.taken(s@) {
                let j = choose|j: int| 0 <= j < self.names().len() && self.names()[j] == s@;
                assert(self.names()[j] == s@);
            }
        }
        false
    }

    /// Registers a new wire under `name`.
    fn add_wire(&mut self, name: String) -> (r: WireID)
        requires
            old(self).wf(),
            !old(self).taken(name@),
            old(self).names().len() + 1 < u32::MAX,
        ensures
            r == old(self).next_id(),
            final(self).wf(),
            final(self).names() == old(self).names().push(name@),
            final(self).gate_list() == old(self).gate_list(),
            final(self).next_gate() == old(self).next_gate(),
            final(self).open_handles() == old(self).open_handles(),
            final(self).same_frame(old(self)),
    {
        self.wire_names.push(name);
        proof {
            assert(self.names() =~= old(self).names().push(name@));
        }
        WireID(self.wire_names.len() as u32)
    }

    /// Consumes forward handles given to a gate, returning their identifiers.
    fn consume_inputs(&mut self, ins: Vec<Wire>) -> (r: Vec<WireID>)
        requires
            old(self).wf(),
            old(self).open_handles() >= ins@.len(),
            forall|i: int| 0 <= i < ins@.len() ==> (#[trigger] ins@[i]).is_open(),
            forall|i: int| 0 <= i < ins@.len() ==> old(self).knows((#[trigger] ins@[i]).wid()),
        ensures
            final(self).wf(),
            r@ == wire_ids(ins@),
            forall|i: int| 0 <= i < r@.len() ==> final(self).knows(#[trigger] r@[i]),
            final(self).names() == old(self).names(),
            final(self).gate_list() == old(self).gate_list(),
            final(self).next_gate() == old(self).next_gate(),
            final(self).open_handles() + ins@.len() == old(self).open_handles(),
            final(self).same_frame(old(self)),
    {
        let ghost orig = ins@;
        let mut rest = ins;
        let mut ids: Vec<WireID> = Vec::new();
        while rest.len() > 0
            invariant
                self.wf(),
                ids@.len() + rest@.len() == orig.len(),
                ids@ == wire_ids(orig.subrange(0, ids@.len() as int)),
                rest@ == orig.subrange(ids@.len() as int, orig.len() as int),
                forall|i: int| 0 <= i < rest@.len() ==> (#[trigger] rest@[i]).is_open(),
                forall|i: int| 0 <= i < rest@.len() ==> self.knows((#[trigger] rest@[i]).wid()),
                self.open_handles() >= rest@.len(),
                self.names() == old(self).names(),
                self.gate_list() == old(self).gate_list(),
                self.next_gate() == old(self).next_gate(),
                self.open_handles() + orig.len() == old(self).open_handles() + rest@.len(),
                self.same_frame(old(self)),
            decreases rest@.len(),
        {
            let w = rest.remove(0);
            let ghost k = ids@.len() as int;
            let id = consume_wire(w);
            ids.push(id);
            self.open_handles = self.open_handles - 1;
            proof {
                assert(ids@ =~= wire_ids(orig.subrange(0, k + 1)));
                assert(rest@ =~= orig.subrange(k + 1, orig.len() as int));
            }
        }
        proof {
            assert(orig.subrange(0, orig.len() as int) =~= orig);
        }
        ids
    }

    /// The common body of every gate with forward inputs and one output.
    fn single(&mut self, kind: GateKind, ins: Vec<Wire>, label: Option<&str>) -> (r: Result<
        Wire,
        BuildError,
    >)
        requires
            old(self).wf(),
            old(self).has_room(1),
            old(self).open_handles() >= ins@.len(),
            forall|i: int| 0 <= i < ins@.len() ==> (#[trigger] ins@[i]).is_open(),
            forall|i: int| 0 <= i < ins@.len() ==> old(self).owns_wire(#[trigger] ins@[i]),
            !old(self).taken(old(self).next_port_name(kind, seq!['q'])),
            match label {
                Some(l) => old(self).fresh_label(l@),
                None => true,
            },
        ensures
            final(self).wf(),
            old(self).single_outcome(
                final(self),
                kind,
                ins@,
                match label {
                    Some(l) => Some(l@),
                    None => None,
                },
                r,
            ),
    {
        let g = make_gate_name(kind_str(kind), self.next_gate_id);
        let mut fresh: Vec<String> = Vec::new();
        fresh.push(make_port_wire_name(g.as_str(), "q"));
        let mut cids: Vec<CircuitID> = Vec::new();
        let mut ids: Vec<WireID> = Vec::new();
        let mut i: usize = 0;
        while i < ins.len()
            invariant
                0 <= i <= ins@.len(),
                cids@ == ins@.map_values(|w: Wire| w.cid()).subrange(0, i as int),
                ids@ == wire_ids(ins@).subrange(0, i as int),
            decreases ins@.len() - i,
        {
            cids.push(ins[i].circuit_id());
            ids.push(ins[i].wire_id());
            i = i + 1;
            proof {
                assert(cids@ =~= ins@.map_values(|w: Wire| w.cid()).subrange(0, i as int));
                assert(ids@ =~= wire_ids(ins@).subrange(0, i as int));
            }
        }
        let labels: Vec<Option<&str>> = match label {
            Some(l) => vec![Some(l)],
            None => Vec::new(),
        };
        let ghost lv = match label {
            Some(l) => seq![Some(l@)],
            None => Seq::<Option<Seq<char>>>::empty(),
        };
        proof {
            reveal_strlit("q");
            assert("q"@ =~= seq!['q']);
            assert(cids@ =~= ins@.map_values(|w: Wire| w.cid()));
            assert(ids@ =~= wire_ids(ins@));
            assert(views(fresh@) =~= seq![port_wire_name(g@, seq!['q'])]);
            assert(label_views(labels@) =~= lv);
        }
        match self.precheck(cids, ids, &fresh, &labels) {
            Some(e) => {
                return Err(e);
            },
            None => {},
        }
        proof {
            let fv = views(fresh@);
            assert forall|i: int| 0 <= i < fv.len() implies is_reserved(#[trigger] fv[i]) by {
                if i == 0 {
                }
            }
            self.lemma_chosen_fresh(fv, lv);
        }
        let added = pick_names(&fresh, &labels);
        let qid = self.fresh(0);
        let in_ids = self.consume_inputs(ins);
        self.register(added);
        let q = self.open_wire(qid);
        self.issue(1);
        let gate = Gate { kind, name: g, inputs: in_ids, outputs: vec![qid], circuit: None };
        proof {
            assert(gate.outputs@ =~= seq![qid]);
        }
        self.push_gate(gate);
        Ok(q)
    }

    /// Adds a relay; its output is the returned handle.
    pub fn jtl(&mut self, a: Wire) -> (r: Result<Wire, BuildError>)
        requires
            old(self).wf(),
            old(self).has_room(1),
            a.is_open(),
            old(self).open_handles() >= 1,
            old(self).owns_wire(a),
            !old(self).taken(old(self).next_port_name(GateKind::Jtl, seq!['q'])),
        ensures
            final(self).wf(),
            old(self).single_outcome(final(self), GateKind::Jtl, seq![a], None, r),
    {
        let ins: Vec<Wire> = vec![a];
        proof {
            assert(ins@ =~= seq![a]);
            assert forall|i: int| 0 <= i < ins@.len() implies old(self).owns_wire(#[trigger] ins@[i]) by {
                if i == 0 {
                    assert(ins@[i] == a);
                }
            }
        }
        self.single(GateKind::Jtl, ins, None)
    }

    /// Adds a relay; its output is the returned handle, named `label`.
    pub fn jtl_labeld(&mut self, a: Wire, label: &str) -> (r: Result<Wire, BuildError>)
        requires
            old(self).wf(),
            old(self).has_room(1),
            a.is_open(),
            old(self).open_handles() >= 1,
            old(self).owns_wire(a),
            !old(self).taken(old(self).next_port_name(GateKind::Jtl, seq!['q'])),
            old(self).fresh_label(label@),
        ensures
            final(self).wf(),
            old(self).single_outcome(final(self), GateKind::Jtl, seq![a], Some(label@), r),
    {
        let ins: Vec<Wire> = vec![a];
        proof {
            assert(ins@ =~= seq![a]);
            assert forall|i: int| 0 <= i < ins@.len() implies old(self).owns_wire(#[trigger] ins@[i]) by {
                if i == 0 {
                    assert(ins@[i] == a);
                }
            }
        }
        self.single(GateKind::Jtl, ins, Some(label))
    }

    /// Adds a merge of two pulses; its output is the returned handle.
    pub fn merge(&mut self, a: Wire, b: Wire) -> (r: Result<Wire, BuildError>)
        requires
            old(self).wf(),
            old(self).has_room(1),
            a.is_open(),
            b.is_open(),
            old(self).open_handles() >= 2,
            old(self).owns_wire(a),
            old(self).owns_wire(b),
            !old(self).taken(old(self).next_port_name(GateKind::Merge, seq!['q'])),
        ensures
            final(self).wf(),
            old(self).single_outcome(final(self), GateKind::Merge, seq![a, b], None, r),
    {
        let ins: Vec<Wire> = vec![a, b];
        proof {
            assert(ins@ =~= seq![a, b]);
            assert forall|i: int| 0 <= i < ins@.len() implies old(self).owns_wire(#[trigger] ins@[i]) by {
                if i == 0 {
                    assert(ins@[i] == a);
                } else if i == 1 {
                    assert(ins@[i] == b);
                }
            }
        }
        self.single(GateKind::Merge, ins, None)
    }

    /// Adds a merge of two pulses; its output is the returned handle, named `label`.
    pub fn merge_labeled(&mut self, a: Wire, b: Wire, label: &str) -> (r: Result<Wire, BuildError>)
        requires
            old(self).wf(),
            old(self).has_room(1),
            a.is_open(),
            b.is_open(),
            old(self).open_handles() >= 2,
            old(self).owns_wire(a),
            old(self).owns_wire(b),
            !old(self).taken(old(self).next_port_name(GateKind::Merge, seq!['q'])),
            old(self).fresh_label(label@),
        ensures
            final(self).wf(),
            old(self).single_outcome(final(self), GateKind::Merge, seq![a, b], Some(label@), r),
    {
        let ins: Vec<Wire> = vec![a, b];
        proof {
            assert(ins@ =~= seq![a, b]);
            assert forall|i: int| 0 <= i < ins@.len() implies old(self).owns_wire(#[trigger] ins@[i]) by {
                if i == 0 {
                    assert(ins@[i] == a);
                } else if i == 1 {
                    assert(ins@[i] == b);
                }
            }
        }
        self.single(GateKind::Merge, ins, Some(label))
    }

    /// Adds a clocked AND; its output is the returned handle.
    pub fn and(&mut self, a: Wire, b: Wire, clk: Wire) -> (r: Result<Wire, BuildError>)
        requires
            old(self).wf(),
            old(self).has_room(1),
            a.is_open(),
            b.is_open(),
            clk.is_open(),
            old(self).open_handles() >= 3,
            old(self).owns_wire(a),
            old(self).owns_wire(b),
            old(self).owns_wire(clk),
            !old(self).taken(old(self).next_port_name(GateKind::And, seq!['q'])),
        ensures
            final(self).wf(),
            old(self).single_outcome(final(self), GateKind::And, seq![a, b, clk], None, r),
    {
        let ins: Vec<Wire> = vec![a, b, clk];
        proof {
            assert(ins@ =~= seq![a, b, clk]);
            assert forall|i: int| 0 <= i < ins@.len() implies old(self).owns_wire(#[trigger] ins@[i]) by {
                if i == 0 {
                    assert(ins@[i] == a);
                } else if i == 1 {
                    assert(ins@[i] == b);
                } else if i == 2 {
                    assert(ins@[i] == clk);
                }
            }
        }
        self.single(GateKind::And, ins, None)
    }

    /// Adds a clocked AND; its output is the returned handle, named `label`.
    pub fn and_labeled(&mut self, a: Wire, b: Wire, clk: Wire, label: &str) -> (r: Result<Wire, BuildError>)
        requires
            old(self).wf(),
            old(self).has_room(1),
            a.is_open(),
            b.is_open(),
            clk.is_open(),
            old(self).open_handles() >= 3,
            old(self).owns_wire(a),
            old(self).owns_wire(b),
            old(self).owns_wire(clk),
            !old(self).taken(old(self).next_port_name(GateKind::And, seq!['q'])),
            old(self).fresh_label(label@),
        ensures
            final(self).wf(),
            old(self).single_outcome(final(self), GateKind::And, seq![a, b, clk], Some(label@), r),
    {
        let ins: Vec<Wire> = vec![a, b, clk];
        proof {
            assert(ins@ =~= seq![a, b, clk]);
            assert forall|i: int| 0 <= i < ins@.len() implies old(self).owns_wire(#[trigger] ins@[i]) by {
                if i == 0 {
                    assert(ins@[i] == a);
                } else if i == 1 {
                    assert(ins@[i] == b);
                } else if i == 2 {
                    assert(ins@[i] == clk);
                }
            }
        }
        self.single(GateKind::And, ins, Some(label))
    }

    /// Adds a clocked OR; its output is the returned handle.
    pub fn or(&mut self, a: Wire, b: Wire, clk: Wire) -> (r: Result<Wire, BuildError>)
        requires
            old(self).wf(),
            old(self).has_room(1),
            a.is_open(),
            b.is_open(),
            clk.is_open(),
            old(self).open_handles() >= 3,
            old(self).owns_wire(a),
            old(self).owns_wire(b),
            old(self).owns_wire(clk),
            !old(self).taken(old(self).next_port_name(GateKind::Or, seq!['q'])),
        ensures
            final(self).wf(),
            old(self).single_outcome(final(self), GateKind::Or, seq![a, b, clk], None, r),
    {
        let ins: Vec<Wire> = vec![a, b, clk];
        proof {
            assert(ins@ =~= seq![a, b, clk]);
            assert forall|i: int| 0 <= i < ins@.len() implies old(self).owns_wire(#[trigger] ins@[i]) by {
                if i == 0 {
                    assert(ins@[i] == a);
                } else if i == 1 {
                    assert(ins@[i] == b);
                } else if i == 2 {
                    assert(ins@[i] == clk);
                }
            }
        }
        self.single(GateKind::Or, ins, None)
    }

    /// Adds a clocked OR; its output is the returned handle, named `label`.
    pub fn or_labeled(&mut self, a: Wire, b: Wire, clk: Wire, label: &str) -> (r: Result<Wire, BuildError>)
        requires
            old(self).wf(),
            old(self).has_room(1),
            a.is_open(),
            b.is_open(),
            clk.is_open(),
            old(self).open_handles() >= 3,
            old(self).owns_wire(a),
            old(self).owns_wire(b),
            old(self).owns_wire(clk),
            !old(self).taken(old(self).next_port_name(GateKind::Or, seq!['q'])),
            old(self).fresh_label(label@),
        ensures
            final(self).wf(),
            old(self).single_outcome(final(self), GateKind::Or, seq![a, b, clk], Some(label@), r),
    {
        let ins: Vec<Wire> = vec![a, b, clk];
        proof {
            assert(ins@ =~= seq![a, b, clk]);
            assert forall|i: int| 0 <= i < ins@.len() implies old(self).owns_wire(#[trigger] ins@[i]) by {
                if i == 0 {
                    assert(ins@[i] == a);
                } else if i == 1 {
                    assert(ins@[i] == b);
                } else if i == 2 {
                    assert(ins@[i] == clk);
                }
            }
        }
        self.single(GateKind::Or, ins, Some(label))
    }

    /// Adds a clocked XOR; its output is the returned handle.
    pub fn xor(&mut self, a: Wire, b: Wire, clk: Wire) -> (r: Result<Wire, BuildError>)
        requires
            old(self).wf(),
            old(self).has_room(1),
            a.is_open(),
            b.is_open(),
            clk.is_open(),
            old(self).open_handles() >= 3,
            old(self).owns_wire(a),
            old(self).owns_wire(b),
            old(self).owns_wire(clk),
            !old(self).taken(old(self).next_port_name(GateKind::Xor, seq!['q'])),
        ensures
            final(self).wf(),
            old(self).single_outcome(final(self), GateKind::Xor, seq![a, b, clk], None, r),
    {
        let ins: Vec<Wire> = vec![a, b, clk];
        proof {
            assert(ins@ =~= seq![a, b, clk]);
            assert forall|i: int| 0 <= i < ins@.len() implies old(self).owns_wire(#[trigger] ins@[i]) by {
                if i == 0 {
                    assert(ins@[i] == a);
                } else if i == 1 {
                    assert(ins@[i] == b);
                } else if i == 2 {
                    assert(ins@[i] == clk);
                }
            }
        }
        self.single(GateKind::Xor, ins, None)
    }

    /// Adds a clocked XOR; its output is the returned handle, named `label`.
    pub fn xor_labeled(&mut self, a: Wire, b: Wire, clk: Wire, label: &str) -> (r: Result<Wire, BuildError>)
        requires
            old(self).wf(),
            old(self).has_room(1),
            a.is_open(),
            b.is_open(),
            clk.is_open(),
            old(self).open_handles() >= 3,
            old(self).owns_wire(a),
            old(self).owns_wire(b),
            old(self).owns_wire(clk),
            !old(self).taken(old(self).next_port_name(GateKind::Xor, seq!['q'])),
            old(self).fresh_label(label@),
        ensures
            final(self).wf(),
            old(self).single_outcome(final(self), GateKind::Xor, seq![a, b, clk], Some(label@), r),
    {
        let ins: Vec<Wire> = vec![a, b, clk];
        proof {
            assert(ins@ =~= seq![a, b, clk]);
            assert forall|i: int| 0 <= i < ins@.len() implies old(self).owns_wire(#[trigger] ins@[i]) by {
                if i == 0 {
                    assert(ins@[i] == a);
                } else if i == 1 {
                    assert(ins@[i] == b);
                } else if i == 2 {
                    assert(ins@[i] == clk);
                }
            }
        }
        self.single(GateKind::Xor, ins, Some(label))
    }

    /// Adds a clocked inverter; its output is the returned handle.
    pub fn not(&mut self, a: Wire, clk: Wire) -> (r: Result<Wire, BuildError>)
        requires
            old(self).wf(),
            old(self).has_room(1),
            a.is_open(),
            clk.is_open(),
            old(self).open_handles() >= 2,
            old(self).owns_wire(a),
            old(self).owns_wire(clk),
            !old(self).taken(old(self).next_port_name(GateKind::Not, seq!['q'])),
        ensures
            final(self).wf(),
            old(self).single_outcome(final(self), GateKind::Not, seq![a, clk], None, r),
    {
        let ins: Vec<Wire> = vec![a, clk];
        proof {
            assert(ins@ =~= seq![a, clk]);
            assert forall|i: int| 0 <= i < ins@.len() implies old(self).owns_wire(#[trigger] ins@[i]) by {
                if i == 0 {
                    assert(ins@[i] == a);
                } else if i == 1 {
                    assert(ins@[i] == clk);
                }
            }
        }
        self.single(GateKind::Not, ins, None)
    }

    /// Adds a clocked inverter; its output is the returned handle, named `label`.
    pub fn not_labeled(&mut self, a: Wire, clk: Wire, label: &str) -> (r: Result<Wire, BuildError>)
        requires
            old(self).wf(),
            old(self).has_room(1),
            a.is_open(),
            clk.is_open(),
            old(self).open_handles() >= 2,
            old(self).owns_wire(a),
            old(self).owns_wire(clk),
            !old(self).taken(old(self).next_port_name(GateKind::Not, seq!['q'])),
            old(self).fresh_label(label@),
        ensures
            final(self).wf(),
            old(self).single_outcome(final(self), GateKind::Not, seq![a, clk], Some(label@), r),
    {
        let ins: Vec<Wire> = vec![a, clk];
        proof {
            assert(ins@ =~= seq![a, clk]);
            assert forall|i: int| 0 <= i < ins@.len() implies old(self).owns_wire(#[trigger] ins@[i]) by {
                if i == 0 {
                    assert(ins@[i] == a);
                } else if i == 1 {
                    assert(ins@[i] == clk);
                }
            }
        }
        self.single(GateKind::Not, ins, Some(label))
    }

    /// Adds a clocked XNOR; its output is the returned handle.
    pub fn xnor(&mut self, a: Wire, b: Wire, clk: Wire) -> (r: Result<Wire, BuildError>)
        requires
            old(self).wf(),
            old(self).has_room(1),
            a.is_open(),
            b.is_open(),
            clk.is_open(),
            old(self).open_handles() >= 3,
            old(self).owns_wire(a),
            old(self).owns_wire(b),
            old(self).owns_wire(clk),
            !old(self).taken(old(self).next_port_name(GateKind::Xnor, seq!['q'])),
        ensures
            final(self).wf(),
            old(self).single_outcome(final(self), GateKind::Xnor, seq![a, b, clk], None, r),
    {
        let ins: Vec<Wire> = vec![a, b, clk];
        proof {
            assert(ins@ =~= seq![a, b, clk]);
            assert forall|i: int| 0 <= i < ins@.len() implies old(self).owns_wire(#[trigger] ins@[i]) by {
                if i == 0 {
                    assert(ins@[i] == a);
                } else if i == 1 {
                    assert(ins@[i] == b);
                } else if i == 2 {
                    assert(ins@[i] == clk);
                }
            }
        }
        self.single(GateKind::Xnor, ins, None)
    }

    /// Adds a clocked XNOR; its output is the returned handle, named `label`.
    pub fn xnor_labeled(&mut self, a: Wire, b: Wire, clk: Wire, label: &str) -> (r: Result<Wire, BuildError>)
        requires
            old(self).wf(),
            old(self).has_room(1),
            a.is_open(),
            b.is_open(),
            clk.is_open(),
            old(self).open_handles() >= 3,
            old(self).owns_wire(a),
            old(self).owns_wire(b),
            old(self).owns_wire(clk),
            !old(self).taken(old(self).next_port_name(GateKind::Xnor, seq!['q'])),
            old(self).fresh_label(label@),
        ensures
            final(self).wf(),
            old(self).single_outcome(final(self), GateKind::Xnor, seq![a, b, clk], Some(label@), r),
    {
        let ins: Vec<Wire> = vec![a, b, clk];
        proof {
            assert(ins@ =~= seq![a, b, clk]);
            assert forall|i: int| 0 <= i < ins@.len() implies old(self).owns_wire(#[trigger] ins@[i]) by {
                if i == 0 {
                    assert(ins@[i] == a);
                } else if i == 1 {
                    assert(ins@[i] == b);
                } else if i == 2 {
                    assert(ins@[i] == clk);
                }
            }
        }
        self.single(GateKind::Xnor, ins, Some(label))
    }

    /// Adds a storage element; its output is the returned handle.
    pub fn dff(&mut self, a: Wire, clk: Wire) -> (r: Result<Wire, BuildError>)
        requires
            old(self).wf(),
            old(self).has_room(1),
            a.is_open(),
            clk.is_open(),
            old(self).open_handles() >= 2,
            old(self).owns_wire(a),
            old(self).owns_wire(clk),
            !old(self).taken(old(self).next_port_name(GateKind::Dff, seq!['q'])),
        ensures
            final(self).wf(),
            old(self).single_outcome(final(self), GateKind::Dff, seq![a, clk], None, r),
    {
        let ins: Vec<Wire> = vec![a, clk];
        proof {
            assert(ins@ =~= seq![a, clk]);
            assert forall|i: int| 0 <= i < ins@.len() implies old(self).owns_wire(#[trigger] ins@[i]) by {
                if i == 0 {
                    assert(ins@[i] == a);
                } else if i == 1 {
                    assert(ins@[i] == clk);
                }
            }
        }
        self.single(GateKind::Dff, ins, None)
    }

    /// Adds a storage element; its output is the returned handle, named `label`.
    pub fn dff_labeled(&mut self, a: Wire, clk: Wire, label: &str) -> (r: Result<Wire, BuildError>)
        requires
            old(self).wf(),
            old(self).has_room(1),
            a.is_open(),
            clk.is_open(),
            old(self).open_handles() >= 2,
            old(self).owns_wire(a),
            old(self).owns_wire(clk),
            !old(self).taken(old(self).next_port_name(GateKind::Dff, seq!['q'])),
            old(self).fresh_label(label@),
        ensures
            final(self).wf(),
            old(self).single_outcome(final(self), GateKind::Dff, seq![a, clk], Some(label@), r),
    {
        let ins: Vec<Wire> = vec![a, clk];
        proof {
            assert(ins@ =~= seq![a, clk]);
            assert forall|i: int| 0 <= i < ins@.len() implies old(self).owns_wire(#[trigger] ins@[i]) by {
                if i == 0 {
                    assert(ins@[i] == a);
                } else if i == 1 {
                    assert(ins@[i] == clk);
                }
            }
        }
        self.single(GateKind::Dff, ins, Some(label))
    }

    /// Adds a non-destructive readout; its output is the returned handle.
    pub fn ndro(&mut self, a: Wire, b: Wire, clk: Wire) -> (r: Result<Wire, BuildError>)
        requires
            old(self).wf(),
            old(self).has_room(1),
            a.is_open(),
            b.is_open(),
            clk.is_open(),
            old(self).open_handles() >= 3,
            old(self).owns_wire(a),
            old(self).owns_wire(b),
            old(self).owns_wire(clk),
            !old(self).taken(old(self).next_port_name(GateKind::Ndro, seq!['q'])),
        ensures
            final(self).wf(),
            old(self).single_outcome(final(self), GateKind::Ndro, seq![a, b, clk], None, r),
    {
        let ins: Vec<Wire> = vec![a, b, clk];
        proof {
            assert(ins@ =~= seq![a, b, clk]);
            assert forall|i: int| 0 <= i < ins@.len() implies old(self).owns_wire(#[trigger] ins@[i]) by {
                if i == 0 {
                    assert(ins@[i] == a);
                } else if i == 1 {
                    assert(ins@[i] == b);
                } else if i == 2 {
                    assert(ins@[i] == clk);
                }
            }
        }
        self.single(GateKind::Ndro, ins, None)
    }

    /// Adds a non-destructive readout; its output is the returned handle, named `label`.
    pub fn ndro_labeled(&mut self, a: Wire, b: Wire, clk: Wire, label: &str) -> (r: Result<Wire, BuildError>)
        requires
            old(self).wf(),
            old(self).has_room(1),
            a.is_open(),
            b.is_open(),
            clk.is_open(),
            old(self).open_handles() >= 3,
            old(self).owns_wire(a),
            old(self).owns_wire(b),
            old(self).owns_wire(clk),
            !old(self).taken(old(self).next_port_name(GateKind::Ndro, seq!['q'])),
            old(self).fresh_label(label@),
        ensures
            final(self).wf(),
            old(self).single_outcome(final(self), GateKind::Ndro, seq![a, b, clk], Some(label@), r),
    {
        let ins: Vec<Wire> = vec![a, b, clk];
        proof {
            assert(ins@ =~= seq![a, b, clk]);
            assert forall|i: int| 0 <= i < ins@.len() implies old(self).owns_wire(#[trigger] ins@[i]) by {
                if i == 0 {
                    assert(ins@[i] == a);
                } else if i == 1 {
                    assert(ins@[i] == b);
                } else if i == 2 {
                    assert(ins@[i] == clk);
                }
            }
        }
        self.single(GateKind::Ndro, ins, Some(label))
    }

    /// Adds a buffer; its output is the returned handle.
    pub fn buff(&mut self, a: Wire) -> (r: Result<Wire, BuildError>)
        requires
            old(self).wf(),
            old(self).has_room(1),
            a.is_open(),
            old(self).open_handles() >= 1,
            old(self).owns_wire(a),
            !old(self).taken(old(self).next_port_name(GateKind::Buff, seq!['q'])),
        ensures
            final(self).wf(),
            old(self).single_outcome(final(self), GateKind::Buff, seq![a], None, r),
    {
        let ins: Vec<Wire> = vec![a];
        proof {
            assert(ins@ =~= seq![a]);
            assert forall|i: int| 0 <= i < ins@.len() implies old(self).owns_wire(#[trigger] ins@[i]) by {
                if i == 0 {
                    assert(ins@[i] == a);
                }
            }
        }
        self.single(GateKind::Buff, ins, None)
    }

    /// Adds a buffer; its output is the returned handle, named `label`.
    pub fn buff_labeled(&mut self, a: Wire, label: &str) -> (r: Result<Wire, BuildError>)
        requires
            old(self).wf(),
            old(self).has_room(1),
            a.is_open(),
            old(self).open_handles() >= 1,
            old(self).owns_wire(a),
            !old(self).taken(old(self).next_port_name(GateKind::Buff, seq!['q'])),
            old(self).fresh_label(label@),
        ensures
            final(self).wf(),
            old(self).single_outcome(final(self), GateKind::Buff, seq![a], Some(label@), r),
    {
        let ins: Vec<Wire> = vec![a];
        proof {
            assert(ins@ =~= seq![a]);
            assert forall|i: int| 0 <= i < ins@.len() implies old(self).owns_wire(#[trigger] ins@[i]) by {
                if i == 0 {
                    assert(ins@[i] == a);
                }
            }
        }
        self.single(GateKind::Buff, ins, Some(label))
    }

    /// Adds an always-zero source; its output is the returned handle.
    pub fn zero_async(&mut self) -> (r: Result<Wire, BuildError>)
        requires
            old(self).wf(),
            old(self).has_room(1),
            !old(self).taken(old(self).next_port_name(GateKind::ZeroAsync, seq!['q'])),
        ensures
            final(self).wf(),
            old(self).single_outcome(final(self), GateKind::ZeroAsync, seq![], None, r),
    {
        let ins: Vec<Wire> = vec![];
        proof {
            assert(ins@ =~= seq![]);
        }
        self.single(GateKind::ZeroAsync, ins, None)
    }

    /// Adds an always-zero source; its output is the returned handle, named `label`.
    pub fn zero_async_labeled(&mut self, label: &str) -> (r: Result<Wire, BuildError>)
        requires
            old(self).wf(),
            old(self).has_room(1),
            !old(self).taken(old(self).next_port_name(GateKind::ZeroAsync, seq!['q'])),
            old(self).fresh_label(label@),
        ensures
            final(self).wf(),
            old(self).single_outcome(final(self), GateKind::ZeroAsync, seq![], Some(label@), r),
    {
        let ins: Vec<Wire> = vec![];
        proof {
            assert(ins@ =~= seq![]);
        }
        self.single(GateKind::ZeroAsync, ins, Some(label))
    }

    fn split_with(&mut self, a: Wire, labels: Vec<Option<&str>>) -> (r: Result<(Wire, Wire), BuildError>)
        requires
            old(self).wf(),
            old(self).has_room(2),
            a.is_open(),
            old(self).open_handles() >= 1,
            old(self).owns_wire(a),
            !old(self).taken(old(self).next_port_name(GateKind::Split, seq!['q', '1'])),
            !old(self).taken(old(self).next_port_name(GateKind::Split, seq!['q', '2'])),
            labels@.len() <= 2,
            forall|i: int|
                0 <= i < label_views(labels@).len() ==> (#[trigger] label_views(labels@)[i]) is Some
                    && old(self).fresh_label(label_views(labels@)[i]->Some_0),
            forall|i: int, j: int|
                0 <= i < j < label_views(labels@).len() ==> label_views(labels@)[i] != label_views(
                    labels@,
                )[j],
        ensures
            final(self).wf(),
            old(self).split_outcome(final(self), a, label_views(labels@), r),
    {
        let g = make_gate_name(kind_str(GateKind::Split), self.next_gate_id);
        let mut fresh: Vec<String> = Vec::new();
        fresh.push(make_port_wire_name(g.as_str(), "q1"));
        fresh.push(make_port_wire_name(g.as_str(), "q2"));
        let cids = vec![a.circuit_id()];
        let ids = vec![a.wire_id()];
        proof {
            reveal_strlit("q1");
            reveal_strlit("q2");
            assert("q1"@ =~= seq!['q', '1']);
            assert("q2"@ =~= seq!['q', '2']);
            assert(cids@ =~= seq![a.cid()]);
            assert(ids@ =~= seq![a.wid()]);
            assert(views(fresh@) =~= seq![
                port_wire_name(g@, seq!['q', '1']),
                port_wire_name(g@, seq!['q', '2']),
            ]);
        }
        match self.precheck(cids, ids, &fresh, &labels) {
            Some(e) => {
                return Err(e);
            },
            None => {},
        }
        proof {
            let fv = views(fresh@);
            assert forall|i: int| 0 <= i < fv.len() implies is_reserved(#[trigger] fv[i]) by {
                if i == 0 {
                } else if i == 1 {
                }
            }
            self.lemma_chosen_fresh(fv, label_views(labels@));
        }
        let added = pick_names(&fresh, &labels);
        let q1id = self.fresh(0);
        let q2id = self.fresh(1);
        let ia = self.take_wire(a);
        self.register(added);
        let q1 = self.open_wire(q1id);
        let q2 = self.open_wire(q2id);
        self.issue(2);
        let gate = Gate {
            kind: GateKind::Split,
            name: g,
            inputs: vec![ia],
            outputs: vec![q1id, q2id],
            circuit: None,
        };
        proof {
            assert(gate.inputs@ =~= seq![ia]);
            assert(gate.outputs@ =~= seq![q1id, q2id]);
        }
        self.push_gate(gate);
        Ok((q1, q2))
    }

    /// Duplicates a forward signal: the input is consumed and two new
    /// forward outputs `q1` and `q2` are returned.
    pub fn split(&mut self, a: Wire) -> (r: Result<(Wire, Wire), BuildError>)
        requires
            old(self).wf(),
            old(self).has_room(2),
            a.is_open(),
            old(self).open_handles() >= 1,
            old(self).owns_wire(a),
            !old(self).taken(old(self).next_port_name(GateKind::Split, seq!['q', '1'])),
            !old(self).taken(old(self).next_port_name(GateKind::Split, seq!['q', '2'])),
        ensures
            final(self).wf(),
            old(self).split_outcome(final(self), a, seq![], r),
    {
        let labels: Vec<Option<&str>> = Vec::new();
        proof {
            assert(label_views(labels@) =~= seq![]);
        }
        self.split_with(a, labels)
    }

    /// `split`, with the two outputs named `label1` and `label2`.
    pub fn split_labeld(&mut self, a: Wire, label1: &str, label2: &str) -> (r: Result<
        (Wire, Wire),
        BuildError,
    >)
        requires
            old(self).wf(),
            old(self).has_room(2),
            a.is_open(),
            old(self).open_handles() >= 1,
            old(self).owns_wire(a),
            !old(self).taken(old(self).next_port_name(GateKind::Split, seq!['q', '1'])),
            !old(self).taken(old(self).next_port_name(GateKind::Split, seq!['q', '2'])),
            old(self).fresh_label(label1@),
            old(self).fresh_label(label2@),
            label1@ != label2@,
        ensures
            final(self).wf(),
            old(self).split_outcome(final(self), a, seq![Some(label1@), Some(label2@)], r),
    {
        let labels: Vec<Option<&str>> = vec![Some(label1), Some(label2)];
        proof {
            assert(label_views(labels@) =~= seq![Some(label1@), Some(label2@)]);
        }
        self.split_with(a, labels)
    }

    fn cbuff_with(&mut self, q: CounterWire, labels: Vec<Option<&str>>) -> (r: Result<
        CounterWire,
        BuildError,
    >)
        requires
            old(self).wf(),
            old(self).has_room(1),
            q.is_open(),
            old(self).open_handles() >= 1,
            old(self).owns_counter_wire(q),
            !old(self).taken(old(self).next_port_name(GateKind::Buff, seq!['a'])),
            labels@.len() <= 1,
            forall|i: int|
                0 <= i < label_views(labels@).len() ==> (#[trigger] label_views(labels@)[i]) is Some
                    && old(self).fresh_label(label_views(labels@)[i]->Some_0),
            forall|i: int, j: int|
                0 <= i < j < label_views(labels@).len() ==> label_views(labels@)[i] != label_views(
                    labels@,
                )[j],
        ensures
            final(self).wf(),
            old(self).cbuff_outcome(final(self), q, label_views(labels@), r),
    {
        let g = make_gate_name(kind_str(GateKind::Buff), self.next_gate_id);
        let mut fresh: Vec<String> = Vec::new();
        fresh.push(make_port_wire_name(g.as_str(), "a"));
        let cids = vec![q.circuit_id()];
        let ids = vec![q.wire_id()];
        proof {
            reveal_strlit("a");
            assert("a"@ =~= seq!['a']);
            assert(cids@ =~= seq![q.cid()]);
            assert(ids@ =~= seq![q.wid()]);
            assert(views(fresh@) =~= seq![port_wire_name(g@, seq!['a'])]);
        }
        match self.precheck(cids, ids, &fresh, &labels) {
            Some(e) => {
                return Err(e);
            },
            None => {},
        }
        proof {
            let fv = views(fresh@);
            assert forall|i: int| 0 <= i < fv.len() implies is_reserved(#[trigger] fv[i]) by {
                if i == 0 {
                }
            }
            self.lemma_chosen_fresh(fv, label_views(labels@));
        }
        let added = pick_names(&fresh, &labels);
        let aid = self.fresh(0);
        let iq = self.take_counter_wire(q);
        self.register(added);
        let a = self.open_counter_wire(aid);
        self.issue(1);
        let gate = Gate {
            kind: GateKind::Buff,
            name: g,
            inputs: vec![aid],
            outputs: vec![iq],
            circuit: None,
        };
        proof {
            assert(gate.inputs@ =~= seq![aid]);
            assert(gate.outputs@ =~= seq![iq]);
        }
        self.push_gate(gate);
        Ok(a)
    }

    /// A buffer in the counter-flow direction: drives the counter-flow
    /// handle `q` and returns its input as a new counter-flow handle.
    pub fn cbuff(&mut self, q: CounterWire) -> (r: Result<CounterWire, BuildError>)
        requires
            old(self).wf(),
            old(self).has_room(1),
            q.is_open(),
            old(self).open_handles() >= 1,
            old(self).owns_counter_wire(q),
            !old(self).taken(old(self).next_port_name(GateKind::Buff, seq!['a'])),
        ensures
            final(self).wf(),
            old(self).cbuff_outcome(final(self), q, seq![], r),
    {
        let labels: Vec<Option<&str>> = Vec::new();
        proof {
            assert(label_views(labels@) =~= seq![]);
        }
        self.cbuff_with(q, labels)
    }

    /// `cbuff`, with the returned handle named `label`.
    pub fn cbuff_labeled(&mut self, q: CounterWire, label: &str) -> (r: Result<
        CounterWire,
        BuildError,
    >)
        requires
            old(self).wf(),
            old(self).has_room(1),
            q.is_open(),
            old(self).open_handles() >= 1,
            old(self).owns_counter_wire(q),
            !old(self).taken(old(self).next_port_name(GateKind::Buff, seq!['a'])),
            old(self).fresh_label(label@),
        ensures
            final(self).wf(),
            old(self).cbuff_outcome(final(self), q, seq![Some(label@)], r),
    {
        let labels: Vec<Option<&str>> = vec![Some(label)];
        proof {
            assert(label_views(labels@) =~= seq![Some(label@)]);
        }
        self.cbuff_with(q, labels)
    }

    fn csplit_with(&mut self, q1: CounterWire, labels: Vec<Option<&str>>) -> (r: Result<
        (Wire, CounterWire),
        BuildError,
    >)
        requires
            old(self).wf(),
            old(self).has_room(2),
            q1.is_open(),
            old(self).open_handles() >= 1,
            old(self).owns_counter_wire(q1),
            !old(self).taken(old(self).next_port_name(GateKind::Split, seq!['q', '2'])),
            !old(self).taken(old(self).next_port_name(GateKind::Split, seq!['a'])),
            labels@.len() <= 2,
            forall|i: int|
                0 <= i < label_views(labels@).len() ==> (#[trigger] label_views(labels@)[i]) is Some
                    && old(self).fresh_label(label_views(labels@)[i]->Some_0),
            forall|i: int, j: int|
                0 <= i < j < label_views(labels@).len() ==> label_views(labels@)[i] != label_views(
                    labels@,
                )[j],
        ensures
            final(self).wf(),
            old(self).csplit_outcome(final(self), q1, label_views(labels@), r),
    {
        let g = make_gate_name(kind_str(GateKind::Split), self.next_gate_id);
        let mut fresh: Vec<String> = Vec::new();
        fresh.push(make_port_wire_name(g.as_str(), "q2"));
        fresh.push(make_port_wire_name(g.as_str(), "a"));
        let cids = vec![q1.circuit_id()];
        let ids = vec![q1.wire_id()];
        proof {
            reveal_strlit("q2");
            reveal_strlit("a");
            assert("q2"@ =~= seq!['q', '2']);
            assert("a"@ =~= seq!['a']);
            assert(cids@ =~= seq![q1.cid()]);
            assert(ids@ =~= seq![q1.wid()]);
            assert(views(fresh@) =~= seq![
                port_wire_name(g@, seq!['q', '2']),
                port_wire_name(g@, seq!['a']),
            ]);
        }
        match self.precheck(cids, ids, &fresh, &labels) {
            Some(e) => {
                return Err(e);
            },
            None => {},
        }
        proof {
            let fv = views(fresh@);
            assert forall|i: int| 0 <= i < fv.len() implies is_reserved(#[trigger] fv[i]) by {
                if i == 0 {
                } else if i == 1 {
                }
            }
            self.lemma_chosen_fresh(fv, label_views(labels@));
        }
        let added = pick_names(&fresh, &labels);
        let q2id = self.fresh(0);
        let aid = self.fresh(1);
        let iq1 = self.take_counter_wire(q1);
        self.register(added);
        let q2 = self.open_wire(q2id);
        let a = self.open_counter_wire(aid);
        self.issue(2);
        let gate = Gate {
            kind: GateKind::Split,
            name: g,
            inputs: vec![aid],
            outputs: vec![iq1, q2id],
            circuit: None,
        };
        proof {
            assert(gate.inputs@ =~= seq![aid]);
            assert(gate.outputs@ =~= seq![iq1, q2id]);
        }
        self.push_gate(gate);
        Ok((q2, a))
    }

    /// A split in the counter-flow direction: drives the counter-flow handle
    /// `q1`, returns its second output `q2` as a new forward handle and its
    /// input `a` as a new counter-flow handle.
    pub fn csplit(&mut self, q1: CounterWire) -> (r: Result<(Wire, CounterWire), BuildError>)
        requires
            old(self).wf(),
            old(self).has_room(2),
            q1.is_open(),
            old(self).open_handles() >= 1,
            old(self).owns_counter_wire(q1),
            !old(self).taken(old(self).next_port_name(GateKind::Split, seq!['q', '2'])),
            !old(self).taken(old(self).next_port_name(GateKind::Split, seq!['a'])),
        ensures
            final(self).wf(),
            old(self).csplit_outcome(final(self), q1, seq![], r),
    {
        let labels: Vec<Option<&str>> = Vec::new();
        proof {
            assert(label_views(labels@) =~= seq![]);
        }
        self.csplit_with(q1, labels)
    }

    /// `csplit`, with the outputs named `label_q2` and `label_a`.
    pub fn csplit_labeled(&mut self, q1: CounterWire, label_q2: &str, label_a: &str) -> (r:
        Result<(Wire, CounterWire), BuildError>)
        requires
            old(self).wf(),
            old(self).has_room(2),
            q1.is_open(),
            old(self).open_handles() >= 1,
            old(self).owns_counter_wire(q1),
            !old(self).taken(old(self).next_port_name(GateKind::Split, seq!['q', '2'])),
            !old(self).taken(old(self).next_port_name(GateKind::Split, seq!['a'])),
            old(self).fresh_label(label_q2@),
            old(self).fresh_label(label_a@),
            label_q2@ != label_a@,
        ensures
            final(self).wf(),
            old(self).csplit_outcome(final(self), q1, seq![Some(label_q2@), Some(label_a@)], r),
    {
        let labels: Vec<Option<&str>> = vec![Some(label_q2), Some(label_a)];
        proof {
            assert(label_views(labels@) =~= seq![Some(label_q2@), Some(label_a@)]);
        }
        self.csplit_with(q1, labels)
    }

    fn csplit2_with(&mut self, q1: CounterWire, q2: CounterWire, labels: Vec<Option<&str>>) -> (r:
        Result<CounterWire, BuildError>)
        requires
            old(self).wf(),
            old(self).has_room(1),
            q1.is_open(),
            q2.is_open(),
            old(self).open_handles() >= 2,
            old(self).owns_counter_wire(q1),
            old(self).owns_counter_wire(q2),
            !old(self).taken(old(self).next_port_name(GateKind::Split, seq!['a'])),
            labels@.len() <= 1,
            forall|i: int|
                0 <= i < label_views(labels@).len() ==> (#[trigger] label_views(labels@)[i]) is Some
                    && old(self).fresh_label(label_views(labels@)[i]->Some_0),
            forall|i: int, j: int|
                0 <= i < j < label_views(labels@).len() ==> label_views(labels@)[i] != label_views(
                    labels@,
                )[j],
        ensures
            final(self).wf(),
            old(self).csplit2_outcome(final(self), q1, q2, label_views(labels@), r),
    {
        let g = make_gate_name(kind_str(GateKind::Split), self.next_gate_id);
        let mut fresh: Vec<String> = Vec::new();
        fresh.push(make_port_wire_name(g.as_str(), "a"));
        let cids = vec![q1.circuit_id(), q2.circuit_id()];
        let ids = vec![q1.wire_id(), q2.wire_id()];
        proof {
            reveal_strlit("a");
            assert("a"@ =~= seq!['a']);
            assert(cids@ =~= seq![q1.cid(), q2.cid()]);
            assert(ids@ =~= seq![q1.wid(), q2.wid()]);
            assert(views(fresh@) =~= seq![port_wire_name(g@, seq!['a'])]);
        }
        match self.precheck(cids, ids, &fresh, &labels) {
            Some(e) => {
                return Err(e);
            },
            None => {},
        }
        proof {
            let fv = views(fresh@);
            assert forall|i: int| 0 <= i < fv.len() implies is_reserved(#[trigger] fv[i]) by {
                if i == 0 {
                }
            }
            self.lemma_chosen_fresh(fv, label_views(labels@));
        }
        let added = pick_names(&fresh, &labels);
        let aid = self.fresh(0);
        let iq1 = self.take_counter_wire(q1);
        let iq2 = self.take_counter_wire(q2);
        self.register(added);
        let a = self.open_counter_wire(aid);
        self.issue(1);
        let gate = Gate {
            kind: GateKind::Split,
            name: g,
            inputs: vec![aid],
            outputs: vec![iq1, iq2],
            circuit: None,
        };
        proof {
            assert(gate.inputs@ =~= seq![aid]);
            assert(gate.outputs@ =~= seq![iq1, iq2]);
        }
        self.push_gate(gate);
        Ok(a)
    }

    /// A merge in the counter-flow direction: drives the counter-flow
    /// handles `q1` and `q2` from one split and returns its input as a new
    /// counter-flow handle.
    pub fn csplit2(&mut self, q1: CounterWire, q2: CounterWire) -> (r: Result<
        CounterWire,
        BuildError,
    >)
        requires
            old(self).wf(),
            old(self).has_room(1),
            q1.is_open(),
            q2.is_open(),
            old(self).open_handles() >= 2,
            old(self).owns_counter_wire(q1),
            old(self).owns_counter_wire(q2),
            !old(self).taken(old(self).next_port_name(GateKind::Split, seq!['a'])),
        ensures
            final(self).wf(),
            old(self).csplit2_outcome(final(self), q1, q2, seq![], r),
    {
        let labels: Vec<Option<&str>> = Vec::new();
        proof {
            assert(label_views(labels@) =~= seq![]);
        }
        self.csplit2_with(q1, q2, labels)
    }

    /// `csplit2`, with the returned handle named `label`.
    pub fn csplit2_labeled(&mut self, q1: CounterWire, q2: CounterWire, label: &str) -> (r:
        Result<CounterWire, BuildError>)
        requires
            old(self).wf(),
            old(self).has_room(1),
            q1.is_open(),
            q2.is_open(),
            old(self).open_handles() >= 2,
            old(self).owns_counter_wire(q1),
            old(self).owns_counter_wire(q2),
            !old(self).taken(old(self).next_port_name(GateKind::Split, seq!['a'])),
            old(self).fresh_label(label@),
        ensures
            final(self).wf(),
            old(self).csplit2_outcome(final(self), q1, q2, seq![Some(label@)], r),
    {
        let labels: Vec<Option<&str>> = vec![Some(label)];
        proof {
            assert(label_views(labels@) =~= seq![Some(label@)]);
        }
        self.csplit2_with(q1, q2, labels)
    }
    /// The outcome of labeling the wire `w` of a handle from circuit `c`.
    pub open spec fn label_outcome(
        &self,
        new: &Circuit,
        w: WireID,
        c: CircuitID,
        label: Seq<char>,
        r: Result<(), BuildError>,
    ) -> bool {
        if c != self.cid() {
            r == Err::<(), BuildError>(BuildError::Provenance) && *new == *self
        } else if !self.knows(w) {
            r == Err::<(), BuildError>(BuildError::UnknownWire) && *new == *self
        } else if !is_reserved(self.name_of(w)) {
            r == Err::<(), BuildError>(BuildError::AlreadyLabeled) && *new == *self
        } else if is_reserved(label) {
            r == Err::<(), BuildError>(BuildError::ReservedLabel) && *new == *self
        } else {
            &&& r is Ok
            &&& new.names() == self.names().update(w.0 - 1, label)
            &&& new.gate_list() == self.gate_list()
            &&& new.next_gate() == self.next_gate()
            &&& new.open_handles() == self.open_handles()
            &&& new.same_frame(self)
        }
    }

    /// The outcome of unifying the forward handle's wire `w` (from circuit
    /// `wc`) with the counter-flow handle's wire `c` (from circuit `cc`).
    pub open spec fn unify_outcome(
        &self,
        new: &Circuit,
        w: WireID,
        wc: CircuitID,
        c: WireID,
        cc: CircuitID,
        r: Result<(), BuildError>,
    ) -> bool {
        let n1 = self.name_of(w);
        let n2 = self.name_of(c);
        let named1 = !is_reserved(n1);
        let named2 = !is_reserved(n2);
        if wc != self.cid() || cc != self.cid() {
            r == Err::<(), BuildError>(BuildError::Provenance) && *new == *self
        } else if !self.knows(w) || !self.knows(c) {
            r == Err::<(), BuildError>(BuildError::UnknownWire) && *new == *self
        } else if named1 && named2 && n1 != n2 {
            r == Err::<(), BuildError>(BuildError::NameConflict) && *new == *self
        } else {
            &&& r is Ok
            &&& new.names() == if named1 && named2 {
                self.names().update(c.0 - 1, n1)
            } else if named2 {
                self.names().update(w.0 - 1, n2)
            } else {
                self.names().update(c.0 - 1, n1)
            }
            &&& new.gate_list() == self.gate_list()
            &&& new.next_gate() == self.next_gate()
            &&& new.open_handles() + 2 == self.open_handles()
            &&& new.same_frame(self)
        }
    }

    /// Renames a registered wire.
    fn set_name(&mut self, w: WireID, name: String)
        requires
            old(self).wf(),
            old(self).knows(w),
        ensures
            final(self).wf(),
            final(self).names() == old(self).names().update(w.0 - 1, name@),
            final(self).gate_list() == old(self).gate_list(),
            final(self).next_gate() == old(self).next_gate(),
            final(self).open_handles() == old(self).open_handles(),
            final(self).same_frame(old(self)),
    {
        assert(self.names().len() == self.wire_names@.len());
        let idx = (w.0 - 1) as usize;
        self.wire_names.set(idx, name);
        proof {
            assert(self.names() =~= old(self).names().update(w.0 - 1, name@));
        }
    }

    /// Gives the anonymous wire of `wire` the user label `label`.
    pub fn label<T: HasWireID>(&mut self, wire: &T, label: &str) -> (r: Result<(), BuildError>)
        requires
            old(self).wf(),
            wire.cid() == old(self).cid(),
            old(self).knows(wire.wid()),
            is_reserved(old(self).name_of(wire.wid())),
            old(self).fresh_label(label@),
        ensures
            final(self).wf(),
            old(self).label_outcome(final(self), wire.wid(), wire.cid(), label@, r),
    {
        if wire.circuit_id() != self.id {
            return Err(BuildError::Provenance);
        }
        let w = wire.wire_id();
        if !self.is_known(w) {
            return Err(BuildError::UnknownWire);
        }
        assert(self.names().len() == self.wire_names@.len());
        let idx = (w.0 - 1) as usize;
        if !reserved(self.wire_names[idx].as_str()) {
            return Err(BuildError::AlreadyLabeled);
        }
        if reserved(label) {
            return Err(BuildError::ReservedLabel);
        }
        self.set_name(w, String::from_str(label));
        Ok(())
    }

    /// Opens a feedback loop: one new wire named `label`, seen both as a
    /// driven forward handle and as a received counter-flow handle, so that
    /// its consumer can be built before its producer.
    pub fn gen_loop(&mut self, label: &str) -> (r: Result<(Wire, CounterWire), BuildError>)
        requires
            old(self).wf(),
            old(self).names().len() + 1 < u32::MAX,
            old(self).fresh_label(label@),
        ensures
            final(self).wf(),
            r is Ok,
            r->Ok_0.0.wid() == old(self).next_id(),
            r->Ok_0.1.wid() == old(self).next_id(),
            r->Ok_0.0.cid() == old(self).cid(),
            r->Ok_0.1.cid() == old(self).cid(),
            r->Ok_0.0.is_open(),
            r->Ok_0.1.is_open(),
            final(self).names() == old(self).names().push(label@),
            final(self).gate_list() == old(self).gate_list(),
            final(self).next_gate() == old(self).next_gate(),
            final(self).open_handles() == old(self).open_handles() + 2,
            final(self).same_frame(old(self)),
    {
        if reserved(label) {
            return Err(BuildError::ReservedLabel);
        }
        let name = String::from_str(label);
        if self.has_name(&name) {
            return Err(BuildError::NameTaken);
        }
        assert(self.names().len() == self.wire_names@.len());
        let id = self.add_wire(name);
        let w = self.open_wire(id);
        let c = self.open_counter_wire(id);
        self.issue(2);
        Ok((w, c))
    }

    /// Closes a feedback loop or a subcircuit boundary: the forward handle
    /// is received and the counter-flow handle driven, and the two wires are
    /// rendered under one name. A user label on either side wins over an
    /// anonymous name; two different user labels conflict.
    pub fn unify(&mut self, wire: Wire, cwire: CounterWire) -> (r: Result<(), BuildError>)
        requires
            old(self).wf(),
            wire.is_open(),
            cwire.is_open(),
            old(self).open_handles() >= 2,
            old(self).owns_wire(wire),
            old(self).owns_counter_wire(cwire),
            !is_reserved(old(self).name_of(wire.wid())) && !is_reserved(
                old(self).name_of(cwire.wid()),
            ) ==> old(self).name_of(wire.wid()) == old(self).name_of(cwire.wid()),
        ensures
            final(self).wf(),
            old(self).unify_outcome(
                final(self),
                wire.wid(),
                wire.cid(),
                cwire.wid(),
                cwire.cid(),
                r,
            ),
    {
        if wire.circuit_id() != self.id || cwire.circuit_id() != self.id {
            return Err(BuildError::Provenance);
        }
        let w = wire.wire_id();
        let c = cwire.wire_id();
        if !self.is_known(w) || !self.is_known(c) {
            return Err(BuildError::UnknownWire);
        }
        assert(self.names().len() == self.wire_names@.len());
        let name1 = self.wire_names[(w.0 - 1) as usize].clone();
        let name2 = self.wire_names[(c.0 - 1) as usize].clone();
        let named1 = !reserved(name1.as_str());
        let named2 = !reserved(name2.as_str());
        if named1 && named2 && !(name1 == name2) {
            return Err(BuildError::NameConflict);
        }
        self.take_wire(wire);
        self.take_counter_wire(cwire);
        if named1 && named2 {
            self.set_name(c, name1);
        } else if named2 {
            self.set_name(w, name2);
        } else {
            self.set_name(c, name1);
        }
        Ok(())
    }

    /// Checks that every handle that the circuit handed out was consumed:
    /// fails with the number still held otherwise.
    pub fn finish(&self) -> (r: Result<(), BuildError>)
        ensures
            r is Ok <==> self.open_handles() == 0,
            r is Err ==> r == Err::<(), BuildError>(
                BuildError::Dangling(self.open_handles() as u64),
            ),
    {
        if self.open_handles == 0 {
            Ok(())
        } else {
            Err(BuildError::Dangling(self.open_handles))
        }
    }

    /// The circuit's name.
    pub fn name(&self) -> (r: &str)
        ensures
            r@ == self.name_view(),
    {
        self.name.as_str()
    }

    /// The circuit's identifier.
    pub fn id(&self) -> (r: CircuitID)
        ensures
            r == self.cid(),
    {
        self.id
    }

    /// The input port names.
    pub fn inputs(&self) -> (r: &Vec<String>)
        ensures
            views(r@) == self.input_names(),
    {
        &self.inputs
    }

    /// The counter-input port names.
    pub fn counter_inputs(&self) -> (r: &Vec<String>)
        ensures
            views(r@) == self.counter_input_names(),
    {
        &self.counter_inputs
    }

    /// The output port names.
    pub fn outputs(&self) -> (r: &Vec<String>)
        ensures
            views(r@) == self.output_names(),
    {
        &self.outputs
    }

    /// The counter-output port names.
    pub fn counter_outputs(&self) -> (r: &Vec<String>)
        ensures
            views(r@) == self.counter_output_names(),
    {
        &self.counter_outputs
    }

    /// The display name of wire `w`, if it is registered.
    pub fn wire_name(&self, w: WireID) -> (r: Option<&str>)
        ensures
            r is Some <==> self.knows(w),
            r is Some ==> r->Some_0@ == self.name_of(w),
    {
        if self.is_known(w) {
            assert(self.names().len() == self.wire_names@.len());
            Some(self.wire_names[(w.0 - 1) as usize].as_str())
        } else {
            None
        }
    }

    /// The registry: entry `i` names wire `i + 1`.
    pub fn wire_names(&self) -> (r: &Vec<String>)
        ensures
            views(r@) == self.names(),
    {
        &self.wire_names
    }

    /// All gates, in the order they were added.
    pub fn gates(&self) -> (r: &Vec<Gate>)
        ensures
            r@.map_values(|g: Gate| g@) == self.gate_list(),
    {
        &self.gates
    }

    /// How many handles of this circuit the caller still holds.
    pub fn open_handle_count(&self) -> (r: u64)
        ensures
            r == self.open_handles(),
    {
        self.open_handles
    }

    /// Registers the names of a list of ports; fails, leaving the registry
    /// in an unspecified state, when a name repeats.
    fn register_ports(&mut self, ports: &[&str]) -> (ok: bool)
        requires
            old(self).wf(),
            old(self).names().no_duplicates(),
            old(self).names().len() + ports@.len() + 1 < u32::MAX,
        ensures
            final(self).wf(),
            ok ==> final(self).names() == old(self).names() + strs(ports@),
            ok ==> final(self).names().no_duplicates(),
            !ok ==> !(old(self).names() + strs(ports@)).no_duplicates(),
            final(self).gate_list() == old(self).gate_list(),
            final(self).next_gate() == old(self).next_gate(),
            final(self).open_handles() == old(self).open_handles(),
            final(self).same_frame(old(self)),
    {
        let ghost full = old(self).names() + strs(ports@);
        let mut i: usize = 0;
        while i < ports.len()
            invariant
                0 <= i <= ports@.len(),
                self.wf(),
                full == old(self).names() + strs(ports@),
                old(self).names().len() + ports@.len() + 1 < u32::MAX,
                self.names() == full.subrange(0, old(self).names().len() + i),
                self.names().no_duplicates(),
                self.gate_list() == old(self).gate_list(),
                self.next_gate() == old(self).next_gate(),
                self.open_handles() == old(self).open_handles(),
                self.same_frame(old(self)),
            decreases ports@.len() - i,
        {
            let name = String::from_str(ports[i]);
            let ghost at = old(self).names().len() + i;
            assert(full[at] == name@);
            if self.has_name(&name) {
                proof {
                    let j = choose|j: int| 0 <= j < self.names().len() && self.names()[j] == name@;
                    assert(full[j] == full[at]);
                }
                return false;
            }
            let ghost prev = self.names();
            self.add_wire(name);
            i = i + 1;
            proof {
                assert(self.names() =~= full.subrange(0, old(self).names().len() + i));
                assert forall|a: int, b: int|
                    0 <= a < self.names().len() && 0 <= b < self.names().len() && a != b
                    implies self.names()[a] != self.names()[b] by {
                    if a < prev.len() && b < prev.len() {
                    } else if a == prev.len() {
                        assert(self.names()[a] == name@);
                        assert(prev.contains(self.names()[b]) || b == a);
                    } else {
                        assert(self.names()[b] == name@);
                        assert(prev[a] == self.names()[a]);
                    }
                }
            }
        }
        proof {
            assert(full.subrange(0, full.len() as int) =~= full);
        }
        true
    }

    /// Open forward handles on `n` consecutive wires after wire `start`.
    fn port_wires(&self, start: u32, n: usize) -> (r: Vec<Wire>)
        requires
            start + n < u32::MAX,
        ensures
            r@.len() == n,
            open_wires_from(r@, self.cid(), start as nat),
    {
        let mut out: Vec<Wire> = Vec::new();
        let mut i: usize = 0;
        while i < n
            invariant
                0 <= i <= n,
                start + n < u32::MAX,
                out@.len() == i,
                open_wires_from(out@, self.cid(), start as nat),
            decreases n - i,
        {
            let w = self.open_wire(WireID(start + 1 + i as u32));
            out.push(w);
            i = i + 1;
        }
        out
    }

    /// Open counter-flow handles on `n` consecutive wires after wire `start`.
    fn port_counter_wires(&self, start: u32, n: usize) -> (r: Vec<CounterWire>)
        requires
            start + n < u32::MAX,
        ensures
            r@.len() == n,
            open_counter_wires_from(r@, self.cid(), start as nat),
    {
        let mut out: Vec<CounterWire> = Vec::new();
        let mut i: usize = 0;
        while i < n
            invariant
                0 <= i <= n,
                start + n < u32::MAX,
                out@.len() == i,
                open_counter_wires_from(out@, self.cid(), start as nat),
            decreases n - i,
        {
            let w = self.open_counter_wire(WireID(start + 1 + i as u32));
            out.push(w);
            i = i + 1;
        }
        out
    }

    /// Creates a circuit named `name` with the given port names, and returns
    /// the handles of its boundary: driven forward handles for the inputs,
    /// received counter-flow handles for the counter-inputs and the outputs,
    /// driven forward handles for the counter-outputs. Port names are
    /// distinct and carry no reserved marker.
    pub fn create(
        inputs: &[&str],
        counter_inputs: &[&str],
        outputs: &[&str],
        counter_outputs: &[&str],
        name: &str,
    ) -> (r: Result<
        (Circuit, Vec<Wire>, Vec<CounterWire>, Vec<CounterWire>, Vec<Wire>),
        BuildError,
    >)
        requires
            inputs@.len() + counter_inputs@.len() + outputs@.len() + counter_outputs@.len() + 1
                < u32::MAX,
            port_names(inputs@, counter_inputs@, outputs@, counter_outputs@).no_duplicates(),
            forall|i: int|
                0 <= i < port_names(inputs@, counter_inputs@, outputs@, counter_outputs@).len()
                    ==> !is_reserved(
                    #[trigger] port_names(inputs@, counter_inputs@, outputs@, counter_outputs@)[i],
                ),
        ensures
            ({
                let ports = port_names(inputs@, counter_inputs@, outputs@, counter_outputs@);
                &&& !ports.no_duplicates() ==> r is Err && r->Err_0 == BuildError::NameTaken
                &&& ports.no_duplicates() ==> r is Ok && {
                    let (c, wi, wci, wo, wco) = r->Ok_0;
                    let ni = inputs@.len();
                    let nci = counter_inputs@.len();
                    let no = outputs@.len();
                    &&& c.wf()
                    &&& c.name_view() == name@
                    &&& c.cid() == CircuitID(xxh32_of_name(name@))
                    &&& c.input_names() == strs(inputs@)
                    &&& c.counter_input_names() == strs(counter_inputs@)
                    &&& c.output_names() == strs(outputs@)
                    &&& c.counter_output_names() == strs(counter_outputs@)
                    &&& c.names() == ports
                    &&& c.gate_list() == Seq::<GateView>::empty()
                    &&& c.next_gate() == 1
                    &&& c.open_handles() == ports.len()
                    &&& wi@.len() == ni && open_wires_from(wi@, c.cid(), 0)
                    &&& wci@.len() == nci && open_counter_wires_from(wci@, c.cid(), ni)
                    &&& wo@.len() == no && open_counter_wires_from(wo@, c.cid(), ni + nci)
                    &&& wco@.len() == counter_outputs@.len() && open_wires_from(
                        wco@,
                        c.cid(),
                        ni + nci + no,
                    )
                }
            }),
    {
        let cid = CircuitID(hash_name(name));
        let mut c = Circuit {
            name: String::from_str(name),
            id: cid,
            inputs: owned(inputs),
            counter_inputs: owned(counter_inputs),
            outputs: owned(outputs),
            counter_outputs: owned(counter_outputs),
            wire_names: Vec::new(),
            gates: Vec::new(),
            next_gate_id: 1,
            open_handles: 0,
        };
        let ghost ports = port_names(inputs@, counter_inputs@, outputs@, counter_outputs@);
        proof {
            assert(c.names() =~= Seq::<Seq<char>>::empty());
            assert(c.gate_list() =~= Seq::<GateView>::empty());
            assert(ports =~= c.names() + strs(inputs@) + strs(counter_inputs@) + strs(outputs@)
                + strs(counter_outputs@));
        }
        if !c.register_ports(inputs) {
            proof {
                let rest = strs(counter_inputs@) + strs(outputs@) + strs(counter_outputs@);
                assert(ports =~= (Seq::<Seq<char>>::empty() + strs(inputs@)) + rest);
                lemma_prefix_repeats(Seq::<Seq<char>>::empty() + strs(inputs@), rest);
            }
            return Err(BuildError::NameTaken);
        }
        let ghost s1 = c.names();
        if !c.register_ports(counter_inputs) {
            proof {
                let rest = strs(outputs@) + strs(counter_outputs@);
                assert(ports =~= (s1 + strs(counter_inputs@)) + rest);
                lemma_prefix_repeats(s1 + strs(counter_inputs@), rest);
            }
            return Err(BuildError::NameTaken);
        }
        let ghost s2 = c.names();
        if !c.register_ports(outputs) {
            proof {
                assert(ports =~= (s2 + strs(outputs@)) + strs(counter_outputs@));
                lemma_prefix_repeats(s2 + strs(outputs@), strs(counter_outputs@));
            }
            return Err(BuildError::NameTaken);
        }
        let ghost s3 = c.names();
        if !c.register_ports(counter_outputs) {
            proof { assert(ports =~= s3 + strs(counter_outputs@)); }
            return Err(BuildError::NameTaken);
        }
        proof {
            assert(c.names() =~= ports);
        }
        let ni = inputs.len() as u32;
        let nci = counter_inputs.len() as u32;
        let no = outputs.len() as u32;
        let wi = c.port_wires(0, inputs.len());
        let wci = c.port_counter_wires(ni, counter_inputs.len());
        let wo = c.port_counter_wires(ni + nci, outputs.len());
        let wco = c.port_wires(ni + nci + no, counter_outputs.len());
        let total = (inputs.len() + counter_inputs.len() + outputs.len() + counter_outputs.len()) as u64;
        c.issue(total);
        Ok((c, wi, wci, wo, wco))
    }

    /// The generated names of the new wires of the next gate embedding
    /// `child`: its outputs, then its counter-outputs.
    pub open spec fn subcircuit_names(&self, child: &Circuit) -> Seq<Seq<char>> {
        let g = gate_name(child.name_view(), self.next_gate());
        port_wire_names(g, child.output_names()) + port_wire_names(g, child.counter_output_names())
    }

    /// The outcome of embedding `child` as a subcircuit gate fed by the
    /// forward handles `ins` and the counter-flow handles `cins`.
    pub open spec fn subcircuit_outcome(
        &self,
        new: &Circuit,
        child: &Circuit,
        ins: Seq<Wire>,
        cins: Seq<CounterWire>,
        r: Result<(Vec<Wire>, Vec<CounterWire>), BuildError>,
    ) -> bool {
        let g = gate_name(child.name_view(), self.next_gate());
        let no = child.output_names().len();
        let nco = child.counter_output_names().len();
        let fresh = port_wire_names(g, child.output_names()) + port_wire_names(
            g,
            child.counter_output_names(),
        );
        let cids = ins.map_values(|w: Wire| w.cid()) + cins.map_values(|w: CounterWire| w.cid());
        let ids = wire_ids(ins) + counter_wire_ids(cins);
        let start = self.names().len();
        match self.first_error(cids, ids, fresh, seq![]) {
            Some(e) => r == Err::<(Vec<Wire>, Vec<CounterWire>), BuildError>(e) && *new == *self,
            None => {
                &&& r is Ok
                &&& r->Ok_0.0@.len() == no
                &&& r->Ok_0.1@.len() == nco
                &&& open_wires_from(r->Ok_0.0@, self.cid(), start)
                &&& open_counter_wires_from(r->Ok_0.1@, self.cid(), start + no)
                &&& self.extended(
                    new,
                    fresh,
                    GateView {
                        kind: GateKind::Subcircuit,
                        name: g,
                        inputs: wire_ids(ins) + id_run(start + no, nco),
                        outputs: id_run(start, no) + counter_wire_ids(cins),
                        circuit: Some(child.name_view()),
                    },
                    ins.len() + cins.len(),
                    no + nco,
                )
            },
        }
    }

    /// Consumes counter-flow handles given to a gate, returning their
    /// identifiers.
    fn consume_counter_inputs(&mut self, ins: Vec<CounterWire>) -> (r: Vec<WireID>)
        requires
            old(self).wf(),
            old(self).open_handles() >= ins@.len(),
            forall|i: int| 0 <= i < ins@.len() ==> (#[trigger] ins@[i]).is_open(),
        ensures
            final(self).wf(),
            r@ == counter_wire_ids(ins@),
            final(self).names() == old(self).names(),
            final(self).gate_list() == old(self).gate_list(),
            final(self).next_gate() == old(self).next_gate(),
            final(self).open_handles() + ins@.len() == old(self).open_handles(),
            final(self).same_frame(old(self)),
    {
        let ghost orig = ins@;
        let mut rest = ins;
        let mut ids: Vec<WireID> = Vec::new();
        while rest.len() > 0
            invariant
                self.wf(),
                ids@.len() + rest@.len() == orig.len(),
                ids@ == counter_wire_ids(orig.subrange(0, ids@.len() as int)),
                rest@ == orig.subrange(ids@.len() as int, orig.len() as int),
                forall|i: int| 0 <= i < rest@.len() ==> (#[trigger] rest@[i]).is_open(),
                self.open_handles() >= rest@.len(),
                self.names() == old(self).names(),
                self.gate_list() == old(self).gate_list(),
                self.next_gate() == old(self).next_gate(),
                self.open_handles() + orig.len() == old(self).open_handles() + rest@.len(),
                self.same_frame(old(self)),
            decreases rest@.len(),
        {
            let w = rest.remove(0);
            let ghost k = ids@.len() as int;
            let id = self.take_counter_wire(w);
            ids.push(id);
            proof {
                assert(ids@ =~= counter_wire_ids(orig.subrange(0, k + 1)));
                assert(rest@ =~= orig.subrange(k + 1, orig.len() as int));
            }
        }
        proof {
            assert(orig.subrange(0, orig.len() as int) =~= orig);
        }
        ids
    }

    /// Embeds the finished circuit `circuit` as one gate. The forward
    /// handles `inputs` feed its inputs and the counter-flow handles
    /// `counter_inputs` are driven by its counter-inputs; new forward
    /// handles for its outputs and new counter-flow handles for its
    /// counter-outputs are returned.
    pub fn subcircuit(
        &mut self,
        circuit: &Circuit,
        inputs: Vec<Wire>,
        counter_inputs: Vec<CounterWire>,
    ) -> (r: Result<(Vec<Wire>, Vec<CounterWire>), BuildError>)
        requires
            old(self).wf(),
            inputs@.len() == circuit.input_names().len(),
            counter_inputs@.len() == circuit.counter_input_names().len(),
            forall|i: int| 0 <= i < inputs@.len() ==> (#[trigger] inputs@[i]).is_open(),
            forall|i: int| 0 <= i < counter_inputs@.len() ==> (#[trigger] counter_inputs@[i]).is_open(),
            old(self).open_handles() >= inputs@.len() + counter_inputs@.len(),
            old(self).has_room(circuit.output_names().len() + circuit.counter_output_names().len()),
            forall|i: int| 0 <= i < inputs@.len() ==> old(self).owns_wire(#[trigger] inputs@[i]),
            forall|i: int|
                0 <= i < counter_inputs@.len() ==> old(self).owns_counter_wire(
                    #[trigger] counter_inputs@[i],
                ),
            forall|i: int|
                0 <= i < old(self).subcircuit_names(circuit).len() ==> !old(self).taken(
                    #[trigger] old(self).subcircuit_names(circuit)[i],
                ),
            old(self).subcircuit_names(circuit).no_duplicates(),
        ensures
            final(self).wf(),
            old(self).subcircuit_outcome(final(self), circuit, inputs@, counter_inputs@, r),
    {
        let g = make_gate_name(circuit.name(), self.next_gate_id);
        let ghost cids_spec = inputs@.map_values(|w: Wire| w.cid()) + counter_inputs@.map_values(
            |w: CounterWire| w.cid(),
        );
        let ghost ids_spec = wire_ids(inputs@) + counter_wire_ids(counter_inputs@);
        let mut cids: Vec<CircuitID> = Vec::new();
        let mut ids: Vec<WireID> = Vec::new();
        let mut i: usize = 0;
        while i < inputs.len()
            invariant
                0 <= i <= inputs@.len(),
                cids@ == inputs@.map_values(|w: Wire| w.cid()).subrange(0, i as int),
                ids@ == wire_ids(inputs@).subrange(0, i as int),
            decreases inputs@.len() - i,
        {
            cids.push(inputs[i].circuit_id());
            ids.push(inputs[i].wire_id());
            i = i + 1;
            proof {
                assert(cids@ =~= inputs@.map_values(|w: Wire| w.cid()).subrange(0, i as int));
                assert(ids@ =~= wire_ids(inputs@).subrange(0, i as int));
            }
        }
        let mut i: usize = 0;
        while i < counter_inputs.len()
            invariant
                0 <= i <= counter_inputs@.len(),
                cids@ == inputs@.map_values(|w: Wire| w.cid()) + counter_inputs@.map_values(
                    |w: CounterWire| w.cid(),
                ).subrange(0, i as int),
                ids@ == wire_ids(inputs@) + counter_wire_ids(counter_inputs@).subrange(0, i as int),
            decreases counter_inputs@.len() - i,
        {
            cids.push(counter_inputs[i].circuit_id());
            ids.push(counter_inputs[i].wire_id());
            i = i + 1;
            proof {
                assert(cids@ =~= inputs@.map_values(|w: Wire| w.cid()) + counter_inputs@.map_values(
                    |w: CounterWire| w.cid(),
                ).subrange(0, i as int));
                assert(ids@ =~= wire_ids(inputs@) + counter_wire_ids(counter_inputs@).subrange(
                    0,
                    i as int,
                ));
            }
        }
        proof {
            assert(cids@ =~= cids_spec);
            assert(ids@ =~= ids_spec);
        }
        let ghost fresh_spec = port_wire_names(g@, circuit.output_names()) + port_wire_names(
            g@,
            circuit.counter_output_names(),
        );
        let mut fresh: Vec<String> = Vec::new();
        let outs = circuit.outputs();
        let couts = circuit.counter_outputs();
        let mut i: usize = 0;
        while i < outs.len()
            invariant
                0 <= i <= outs@.len(),
                views(outs@) == circuit.output_names(),
                views(fresh@) == port_wire_names(g@, circuit.output_names()).subrange(0, i as int),
            decreases outs@.len() - i,
        {
            let ghost prev = fresh@;
            fresh.push(make_port_wire_name(g.as_str(), outs[i].as_str()));
            i = i + 1;
            proof {
                assert(views(outs@)[i - 1] == outs@[i - 1]@);
                assert(views(fresh@) =~= views(prev).push(
                    port_wire_name(g@, circuit.output_names()[i - 1]),
                ));
                assert(port_wire_names(g@, circuit.output_names())[i - 1] == port_wire_name(
                    g@,
                    circuit.output_names()[i - 1],
                ));
                assert(views(fresh@) =~= port_wire_names(g@, circuit.output_names()).subrange(
                    0,
                    i as int,
                ));
            }
        }
        let mut i: usize = 0;
        while i < couts.len()
            invariant
                0 <= i <= couts@.len(),
                views(couts@) == circuit.counter_output_names(),
                views(fresh@) == port_wire_names(g@, circuit.output_names()) + port_wire_names(
                    g@,
                    circuit.counter_output_names(),
                ).subrange(0, i as int),
            decreases couts@.len() - i,
        {
            let ghost prev = fresh@;
            fresh.push(make_port_wire_name(g.as_str(), couts[i].as_str()));
            i = i + 1;
            proof {
                assert(views(couts@)[i - 1] == couts@[i - 1]@);
                assert(views(fresh@) =~= views(prev).push(
                    port_wire_name(g@, circuit.counter_output_names()[i - 1]),
                ));
                assert(port_wire_names(g@, circuit.counter_output_names())[i - 1]
                    == port_wire_name(g@, circuit.counter_output_names()[i - 1]));
                assert(views(fresh@) =~= port_wire_names(g@, circuit.output_names())
                    + port_wire_names(g@, circuit.counter_output_names()).subrange(0, i as int));
            }
        }
        let labels: Vec<Option<&str>> = Vec::new();
        proof {
            assert(views(fresh@) =~= fresh_spec);
            assert(label_views(labels@) =~= seq![]);
        }
        match self.precheck(cids, ids, &fresh, &labels) {
            Some(e) => {
                return Err(e);
            },
            None => {},
        }
        assert(self.names().len() == self.wire_names@.len());
        assert(views(fresh@).len() == fresh@.len());
        let start = self.wire_names.len() as u32;
        let no = outs.len();
        let nco = couts.len();
        assert(views(outs@).len() == outs@.len());
        assert(views(couts@).len() == couts@.len());
        proof {
            assert forall|i: int| 0 <= i < inputs@.len() implies self.knows(
                (#[trigger] inputs@[i]).wid(),
            ) by {
                assert(ids_spec[i] == inputs@[i].wid());
            }
            assert forall|i: int| 0 <= i < counter_inputs@.len() implies self.knows(
                (#[trigger] counter_inputs@[i]).wid(),
            ) by {
                assert(ids_spec[inputs@.len() + i] == counter_inputs@[i].wid());
            }
        }
        let ghost cin_spec = counter_inputs@;
        let in_ids = self.consume_inputs(inputs);
        let cin_ids = self.consume_counter_inputs(counter_inputs);
        self.register(fresh);
        let out_wires = self.port_wires(start, no);
        let cout_wires = self.port_counter_wires(start + no as u32, nco);
        self.issue((no + nco) as u64);
        let mut gate_inputs = in_ids;
        let mut tail = id_range(start + no as u32, nco);
        gate_inputs.append(&mut tail);
        let mut gate_outputs = id_range(start, no);
        let mut cin = cin_ids;
        gate_outputs.append(&mut cin);
        let gate = Gate {
            kind: GateKind::Subcircuit,
            name: g,
            inputs: gate_inputs,
            outputs: gate_outputs,
            circuit: Some(String::from_str(circuit.name())),
        };
        proof {
            assert forall|k: int| 0 <= k < gate.inputs@.len() implies self.knows(
                #[trigger] gate.inputs@[k],
            ) by {
                if k >= in_ids@.len() {
                    assert(gate.inputs@[k] == id_run((start + no) as nat, nco as nat)[k - in_ids@.len()]);
                }
            }
            assert forall|k: int| 0 <= k < gate.outputs@.len() implies self.knows(
                #[trigger] gate.outputs@[k],
            ) by {
                if k < no {
                    assert(gate.outputs@[k] == id_run(start as nat, no as nat)[k]);
                } else {
                    assert(gate.outputs@[k] == cin_ids@[k - no]);
                    assert(cin_ids@[k - no] == cin_spec[k - no].wid());
                    assert(old(self).knows(cin_spec[k - no].wid()));
                }
            }
        }
        self.push_gate(gate);
        Ok((out_wires, cout_wires))
    }

    /// Every pin of every gate of a well-formed circuit is registered.
    pub proof fn lemma_wf_pins(&self)
        requires
            self.wf(),
        ensures
            forall|g: int, k: int|
                0 <= g < self.gate_list().len() && 0 <= k < self.gate_list()[g].inputs.len()
                    ==> self.knows(#[trigger] self.gate_list()[g].inputs[k]),
            forall|g: int, k: int|
                0 <= g < self.gate_list().len() && 0 <= k < self.gate_list()[g].outputs.len()
                    ==> self.knows(#[trigger] self.gate_list()[g].outputs[k]),
    {
    }

    /// The registry's length is the number of registered wires.
    pub proof fn lemma_wf_len(&self)
        requires
            self.wf(),
        ensures
            self.names().len() < u32::MAX,
            self.cid() == CircuitID(xxh32_of_name(self.name_view())),
    {
    }
}

/// The identifier of a circuit depends on its name alone: two circuits of
/// one name carry one identifier.
pub proof fn lemma_same_name_same_id(c1: &Circuit, c2: &Circuit)
    requires
        c1.wf(),
        c2.wf(),
        c1.name_view() == c2.name_view(),
    ensures
        c1.cid() == c2.cid(),
{
}

/// A split of a handle of the circuit hands out two distinct new wires of
/// the circuit, each driven exactly once and not yet received, so each is
/// accepted by the next gate that consumes it.
pub proof fn lemma_split_fresh(
    c: &Circuit,
    new: &Circuit,
    a: Wire,
    labels: Seq<Option<Seq<char>>>,
    r: Result<(Wire, Wire), BuildError>,
)
    requires
        c.wf(),
        c.has_room(2),
        c.owns_wire(a),
        !c.taken(c.next_port_name(GateKind::Split, seq!['q', '1'])),
        !c.taken(c.next_port_name(GateKind::Split, seq!['q', '2'])),
        labels == Seq::<Option<Seq<char>>>::empty(),
        c.split_outcome(new, a, labels, r),
    ensures
        r is Ok,
        new.owns_wire(r->Ok_0.0) && new.owns_wire(r->Ok_0.1),
        r->Ok_0.0.wid() != r->Ok_0.1.wid(),
        !c.knows(r->Ok_0.0.wid()),
        !c.knows(r->Ok_0.1.wid()),
        new.knows(r->Ok_0.0.wid()),
        new.knows(r->Ok_0.1.wid()),
        r->Ok_0.0.drivers() == 1 && r->Ok_0.0.receivers() == 0,
        r->Ok_0.1.drivers() == 1 && r->Ok_0.1.receivers() == 0,
{
    let g = c.next_gate_name(GateKind::Split);
    let n1 = port_wire_name(g, seq!['q', '1']);
    let n2 = port_wire_name(g, seq!['q', '2']);
    assert(n1[n1.len() - 1] == '1' && n2[n2.len() - 1] == '2');
    let fresh = seq![n1, n2];
    assert(fresh.no_duplicates()) by {
        assert forall|i: int, j: int| 0 <= i < 2 && 0 <= j < 2 && i != j implies fresh[i]
            != fresh[j] by {
            assert(n1 != n2);
        }
    }
    let cids = seq![a.cid()];
    let ids = seq![a.wid()];
    assert(forall|i: int| 0 <= i < cids.len() ==> cids[i] == c.cid());
    assert(forall|i: int| 0 <= i < ids.len() ==> c.knows(ids[i]));
    assert(forall|i: int| 0 <= i < fresh.len() ==> !c.taken(fresh[i]));
    assert(c.first_error(cids, ids, fresh, labels) is None);
    c.lemma_wf_len();
}

/// Labeling a gate's output in its own call or right after it
/// gives the same registry and gate list, and succeeds in the same cases.
pub proof fn lemma_label_in_call_or_after(
    c: &Circuit,
    kind: GateKind,
    ins: Seq<Wire>,
    label: Seq<char>,
    after_gate: &Circuit,
    r_gate: Result<Wire, BuildError>,
    after_label: &Circuit,
    r_label: Result<(), BuildError>,
    in_call: &Circuit,
    r_in_call: Result<Wire, BuildError>,
)
    requires
        c.wf(),
        c.single_outcome(after_gate, kind, ins, None, r_gate),
        r_gate is Ok,
        after_gate.label_outcome(
            after_label,
            r_gate->Ok_0.wid(),
            r_gate->Ok_0.cid(),
            label,
            r_label,
        ),
        c.single_outcome(in_call, kind, ins, Some(label), r_in_call),
    ensures
        r_label is Ok <==> r_in_call is Ok,
        r_label is Ok ==> after_label.names() == in_call.names() && after_label.gate_list()
            == in_call.gate_list() && after_label.open_handles() == in_call.open_handles(),
{
    c.lemma_wf_len();
    let g = c.next_gate_name(kind);
    let qn = port_wire_name(g, seq!['q']);
    assert(after_gate.name_of(r_gate->Ok_0.wid()) == qn);
    assert(is_reserved(qn));
    if r_label is Ok {
        assert(after_label.names() =~= in_call.names());
    }
}

/// A gate fed by handles of the circuit hands out a new handle of the
/// circuit, driven once and not yet received, so it is accepted by the next
/// gate that consumes it.
pub proof fn lemma_single_output_usable(
    c: &Circuit,
    new: &Circuit,
    kind: GateKind,
    ins: Seq<Wire>,
    label: Option<Seq<char>>,
    r: Result<Wire, BuildError>,
)
    requires
        c.wf(),
        c.has_room(1),
        forall|i: int| 0 <= i < ins.len() ==> c.owns_wire(#[trigger] ins[i]),
        !c.taken(c.next_port_name(kind, seq!['q'])),
        label is Some ==> c.fresh_label(label->Some_0),
        c.single_outcome(new, kind, ins, label, r),
    ensures
        r is Ok,
        new.owns_wire(r->Ok_0),
        r->Ok_0.drivers() == 1 && r->Ok_0.receivers() == 0,
        !c.knows(r->Ok_0.wid()),
{
    c.lemma_wf_len();
    let cids = ins.map_values(|w: Wire| w.cid());
    let ids = wire_ids(ins);
    assert forall|i: int| 0 <= i < cids.len() implies #[trigger] cids[i] == c.cid() by {
        assert(c.owns_wire(ins[i]));
    }
    assert forall|i: int| 0 <= i < ids.len() implies c.knows(#[trigger] ids[i]) by {
        assert(c.owns_wire(ins[i]));
    }
    let labels = match label {
        Some(l) => seq![Some(l)],
        None => Seq::<Option<Seq<char>>>::empty(),
    };
    assert(forall|i: int| 0 <= i < labels.len() ==> labels[i] == label);
}

/// Unifying two wires that carry user labels succeeds exactly when the
/// labels agree, and then both wires keep that label.
pub proof fn lemma_unify_labels(
    c: &Circuit,
    new: &Circuit,
    wire: Wire,
    cwire: CounterWire,
    r: Result<(), BuildError>,
)
    requires
        c.wf(),
        wire.cid() == c.cid(),
        cwire.cid() == c.cid(),
        c.knows(wire.wid()),
        c.knows(cwire.wid()),
        !is_reserved(c.name_of(wire.wid())),
        !is_reserved(c.name_of(cwire.wid())),
        c.unify_outcome(new, wire.wid(), wire.cid(), cwire.wid(), cwire.cid(), r),
    ensures
        c.name_of(wire.wid()) == c.name_of(cwire.wid()) ==> {
            &&& r is Ok
            &&& new.name_of(wire.wid()) == c.name_of(wire.wid())
            &&& new.name_of(cwire.wid()) == c.name_of(wire.wid())
        },
        c.name_of(wire.wid()) != c.name_of(cwire.wid()) ==> r == Err::<(), BuildError>(
            BuildError::NameConflict,
        ),
{
}


} // verus!
