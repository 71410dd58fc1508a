//! The pieces from which a subsystem's boundary is made: stand-in nodes,
//! the names of the ports they stand for, and the wires that tie them in.

use vstd::prelude::*;
use vstd::pervasive::unreached;
use std::collections::HashMap;
use egui::Pos2;
use egui_snarl::Snarl;
use crate::graph::{has_input, has_output, input_name, output_name, placed};
use crate::node::{Input, Node, NodeView, Output, Port, PortKind};
use crate::snarl::{
    decimal, label, point, point_at, snarl_connect, snarl_get_node, snarl_insert_node,
    snarl_nodes, snarl_positions, snarl_wires,
};
use crate::wire::{InPort, OutPort, Wire};

verus! {

broadcast use {vstd::seq_lib::group_seq_properties, vstd::std_specs::hash::group_hash_axioms};

/// `after` holds all that `before` holds, unchanged, and besides only the
/// identifiers `ids`, none of which `before` has.
pub open spec fn grown(
    before: Map<usize, (NodeView, Pos2)>,
    after: Map<usize, (NodeView, Pos2)>,
    ids: Seq<usize>,
) -> bool {
    &&& ids.no_duplicates()
    &&& forall|k: int| 0 <= k < ids.len() ==> !before.dom().contains(#[trigger] ids[k])
    &&& after.dom() =~= before.dom().union(ids.to_set())
    &&& forall|id: usize| before.dom().contains(id) ==> #[trigger] after[id] == before[id]
}

/// A stand-in node: no nested subsystem and a single port of kind
/// `External`, an output where it stands for a source and an input where it
/// stands for a sink.
pub open spec fn stand_in(name: Seq<char>, port: Seq<char>, as_source: bool) -> NodeView {
    let ports = seq![Port { name: port, kind: PortKind::External }];
    NodeView {
        name,
        inputs: if as_source {
            Seq::empty()
        } else {
            ports
        },
        outputs: if as_source {
            ports
        } else {
            Seq::empty()
        },
        subsystem: None,
    }
}

/// Adds one stand-in node for each name of a port. The node of index `k` is
/// called by the prefix and the number `k + 1`, and lies at `x` and
/// `pitch * k`.
pub(crate) fn add_stand_ins(
    snarl: &mut Snarl<Node>,
    ports: &Vec<String>,
    as_source: bool,
    prefix: &str,
    x: i32,
    pitch: i32,
) -> (ids: Vec<usize>)
    ensures
        ids.len() == ports.len(),
        grown(placed(*old(snarl)), placed(*final(snarl)), ids@),
        forall|k: int|
            0 <= k < ids.len() ==> placed(*final(snarl))[#[trigger] ids[k]] == (
                stand_in(prefix@ + decimal((k + 1) as nat), ports[k]@, as_source),
                point_at(x as int, pitch * k),
            ),
        snarl_wires(*final(snarl)) == snarl_wires(*old(snarl)),
{
    let ghost before = placed(*snarl);
    let mut ids: Vec<usize> = Vec::new();
    let mut k: usize = 0;
    while k < ports.len()
        invariant
            k <= ports.len(),
            ids.len() == k,
            grown(before, placed(*snarl), ids@),
            forall|j: int|
                0 <= j < ids.len() ==> placed(*snarl)[#[trigger] ids[j]] == (
                    stand_in(prefix@ + decimal((j + 1) as nat), ports[j]@, as_source),
                    point_at(x as int, pitch * j),
                ),
            snarl_wires(*snarl) == snarl_wires(*old(snarl)),
        decreases ports.len() - k,
    {
        let ghost prev = placed(*snarl);
        let port = ports[k].clone();
        let name = label(prefix, k + 1);
        let node = if as_source {
            Node {
                name,
                inputs: Vec::new(),
                outputs: vec![Output { name: port, kind: PortKind::External }],
                subsystem: None,
            }
        } else {
            Node {
                name,
                inputs: vec![Input { name: port, kind: PortKind::External }],
                outputs: Vec::new(),
                subsystem: None,
            }
        };
        assert(-0x8000_0000 * 0x1_0000_0000_0000_0000 <= pitch * k <= 0x8000_0000
            * 0x1_0000_0000_0000_0000) by (nonlinear_arith)
            requires
                -0x8000_0000 <= pitch <= 0x8000_0000,
                0 <= k <= 0x1_0000_0000_0000_0000,
        ;
        let pos = point(x as i128, (pitch as i128) * (k as i128));
        let id = snarl_insert_node(snarl, pos, node);
        proof {
            assert(placed(*snarl) =~= prev.insert(id, (node@, pos)));
            assert(prev.dom().contains(id) == false);
        }
        ids.push(id);
        k += 1;
    }
    ids
}

/// Adds the wires of a list to the graph, as they are.
pub(crate) fn connect_all(snarl: &mut Snarl<Node>, list: &Vec<Wire>)
    requires
        forall|k: int|
            0 <= k < list.len() ==> placed(*old(snarl)).dom().contains((#[trigger] list[k]).from.node)
                && placed(*old(snarl)).dom().contains(list[k].to.node),
    ensures
        placed(*final(snarl)) == placed(*old(snarl)),
        snarl_nodes(*final(snarl)) == snarl_nodes(*old(snarl)),
        snarl_positions(*final(snarl)) == snarl_positions(*old(snarl)),
        snarl_wires(*final(snarl)) == snarl_wires(*old(snarl)).union(list@.to_set()),
{
    let mut k: usize = 0;
    while k < list.len()
        invariant
            k <= list.len(),
            snarl_nodes(*snarl) == snarl_nodes(*old(snarl)),
            snarl_positions(*snarl) == snarl_positions(*old(snarl)),
            forall|j: int|
                0 <= j < list.len() ==> placed(*old(snarl)).dom().contains(
                    (#[trigger] list[j]).from.node,
                ) && placed(*old(snarl)).dom().contains(list[j].to.node),
            snarl_wires(*snarl) == snarl_wires(*old(snarl)).union(list@.take(k as int).to_set()),
        decreases list.len() - k,
    {
        let wire = list[k];
        snarl_connect(snarl, wire);
        k += 1;
    }
}

/// A wire with both of its nodes renamed.
pub open spec fn renamed(wire: Wire, moved: Map<usize, usize>) -> Wire {
    Wire {
        from: OutPort { node: moved[wire.from.node], output: wire.from.output },
        to: InPort { node: moved[wire.to.node], input: wire.to.input },
    }
}

/// The renaming of wires that goes with a renaming of nodes.
pub open spec fn renaming(moved: Map<usize, usize>) -> spec_fn(Wire) -> Wire {
    |w: Wire| renamed(w, moved)
}

/// The wires of a list, each with both of its nodes renamed.
pub open spec fn rename_all(wires: Seq<Wire>, moved: Map<usize, usize>) -> Seq<Wire> {
    wires.map_values(renaming(moved))
}

/// The input ports at which the wires of a list end, their nodes renamed.
pub open spec fn moved_ends(wires: Seq<Wire>, moved: Map<usize, usize>) -> Seq<InPort> {
    wires.map_values(|w: Wire| InPort { node: moved[w.to.node], input: w.to.input })
}

/// The output ports at which the wires of a list start, their nodes renamed.
pub open spec fn moved_starts(wires: Seq<Wire>, moved: Map<usize, usize>) -> Seq<OutPort> {
    wires.map_values(|w: Wire| OutPort { node: moved[w.from.node], output: w.from.output })
}

/// One wire for each input port of a list: from the only output of the
/// source of the same index.
pub open spec fn feeds(sources: Seq<usize>, fed: Seq<InPort>) -> Seq<Wire> {
    Seq::new(fed.len(), |k: int| Wire { from: OutPort { node: sources[k], output: 0 }, to: fed[k] })
}

/// One wire for each output port of a list: to the only input of the sink of
/// the same index.
pub open spec fn drains(drained: Seq<OutPort>, sinks: Seq<usize>) -> Seq<Wire> {
    Seq::new(
        drained.len(),
        |k: int| Wire { from: drained[k], to: InPort { node: sinks[k], input: 0 } },
    )
}

/// One wire for each wire of a list: from where that wire starts to the
/// input of the same index on `node`.
pub open spec fn entries(entering: Seq<Wire>, node: usize) -> Seq<Wire> {
    Seq::new(
        entering.len(),
        |k: int| Wire { from: entering[k].from, to: InPort { node, input: k as usize } },
    )
}

/// One wire for each wire of a list: from the output of the same index on
/// `node` to where that wire ends.
pub open spec fn exits(leaving: Seq<Wire>, node: usize) -> Seq<Wire> {
    Seq::new(
        leaving.len(),
        |k: int| Wire { from: OutPort { node, output: k as usize }, to: leaving[k].to },
    )
}

/// The new name of a node that was moved.
fn new_id(moved: &HashMap<usize, usize>, id: usize) -> (new: usize)
    requires
        moved@.dom().contains(id),
    ensures
        new == moved@[id],
{
    match moved.get(&id) {
        Some(new) => *new,
        None => unreached(),
    }
}

pub(crate) fn renamed_wires(wires: &Vec<Wire>, moved: &HashMap<usize, usize>) -> (out: Vec<Wire>)
    requires
        forall|k: int|
            0 <= k < wires.len() ==> moved@.dom().contains((#[trigger] wires[k]).from.node)
                && moved@.dom().contains(wires[k].to.node),
    ensures
        out@ == rename_all(wires@, moved@),
{
    let mut out: Vec<Wire> = Vec::new();
    let mut k: usize = 0;
    while k < wires.len()
        invariant
            k <= wires.len(),
            forall|j: int|
                0 <= j < wires.len() ==> moved@.dom().contains((#[trigger] wires[j]).from.node)
                    && moved@.dom().contains(wires[j].to.node),
            out@ =~= rename_all(wires@, moved@).take(k as int),
        decreases wires.len() - k,
    {
        let w = wires[k];
        out.push(
            Wire {
                from: OutPort { node: new_id(moved, w.from.node), output: w.from.output },
                to: InPort { node: new_id(moved, w.to.node), input: w.to.input },
            },
        );
        k += 1;
    }
    out
}

pub(crate) fn renamed_ends(wires: &Vec<Wire>, moved: &HashMap<usize, usize>) -> (out: Vec<InPort>)
    requires
        forall|k: int| 0 <= k < wires.len() ==> moved@.dom().contains((#[trigger] wires[k]).to.node),
    ensures
        out@ == moved_ends(wires@, moved@),
{
    let mut out: Vec<InPort> = Vec::new();
    let mut k: usize = 0;
    while k < wires.len()
        invariant
            k <= wires.len(),
            forall|j: int|
                0 <= j < wires.len() ==> moved@.dom().contains((#[trigger] wires[j]).to.node),
            out@ =~= moved_ends(wires@, moved@).take(k as int),
        decreases wires.len() - k,
    {
        let w = wires[k];
        out.push(InPort { node: new_id(moved, w.to.node), input: w.to.input });
        k += 1;
    }
    out
}

pub(crate) fn renamed_starts(wires: &Vec<Wire>, moved: &HashMap<usize, usize>) -> (out: Vec<OutPort>)
    requires
        forall|k: int|
            0 <= k < wires.len() ==> moved@.dom().contains((#[trigger] wires[k]).from.node),
    ensures
        out@ == moved_starts(wires@, moved@),
{
    let mut out: Vec<OutPort> = Vec::new();
    let mut k: usize = 0;
    while k < wires.len()
        invariant
            k <= wires.len(),
            forall|j: int|
                0 <= j < wires.len() ==> moved@.dom().contains((#[trigger] wires[j]).from.node),
            out@ =~= moved_starts(wires@, moved@).take(k as int),
        decreases wires.len() - k,
    {
        let w = wires[k];
        out.push(OutPort { node: new_id(moved, w.from.node), output: w.from.output });
        k += 1;
    }
    out
}

pub(crate) fn feed_wires(sources: &Vec<usize>, fed: &Vec<InPort>) -> (out: Vec<Wire>)
    requires
        sources.len() == fed.len(),
    ensures
        out@ == feeds(sources@, fed@),
{
    let mut out: Vec<Wire> = Vec::new();
    let mut k: usize = 0;
    while k < fed.len()
        invariant
            k <= fed.len(),
            sources.len() == fed.len(),
            out@ =~= feeds(sources@, fed@).take(k as int),
        decreases fed.len() - k,
    {
        out.push(Wire { from: OutPort { node: sources[k], output: 0 }, to: fed[k] });
        k += 1;
    }
    out
}

pub(crate) fn drain_wires(drained: &Vec<OutPort>, sinks: &Vec<usize>) -> (out: Vec<Wire>)
    requires
        sinks.len() == drained.len(),
    ensures
        out@ == drains(drained@, sinks@),
{
    let mut out: Vec<Wire> = Vec::new();
    let mut k: usize = 0;
    while k < drained.len()
        invariant
            k <= drained.len(),
            sinks.len() == drained.len(),
            out@ =~= drains(drained@, sinks@).take(k as int),
        decreases drained.len() - k,
    {
        out.push(Wire { from: drained[k], to: InPort { node: sinks[k], input: 0 } });
        k += 1;
    }
    out
}

pub(crate) fn entry_wires(entering: &Vec<Wire>, node: usize) -> (out: Vec<Wire>)
    ensures
        out@ == entries(entering@, node),
{
    let mut out: Vec<Wire> = Vec::new();
    let mut k: usize = 0;
    while k < entering.len()
        invariant
            k <= entering.len(),
            out@ =~= entries(entering@, node).take(k as int),
        decreases entering.len() - k,
    {
        out.push(Wire { from: entering[k].from, to: InPort { node, input: k } });
        k += 1;
    }
    out
}

pub(crate) fn exit_wires(leaving: &Vec<Wire>, node: usize) -> (out: Vec<Wire>)
    ensures
        out@ == exits(leaving@, node),
{
    let mut out: Vec<Wire> = Vec::new();
    let mut k: usize = 0;
    while k < leaving.len()
        invariant
            k <= leaving.len(),
            out@ =~= exits(leaving@, node).take(k as int),
        decreases leaving.len() - k,
    {
        out.push(Wire { from: OutPort { node, output: k }, to: leaving[k].to });
        k += 1;
    }
    out
}

/// Where each wire of a list ends.
pub(crate) fn wire_ends(wires: &Vec<Wire>) -> (ends: Vec<InPort>)
    ensures
        ends.len() == wires.len(),
        forall|k: int| 0 <= k < ends.len() ==> #[trigger] ends[k] == wires[k].to,
{
    let mut ends: Vec<InPort> = Vec::new();
    let mut k: usize = 0;
    while k < wires.len()
        invariant
            k <= wires.len(),
            ends.len() == k,
            forall|j: int| 0 <= j < ends.len() ==> #[trigger] ends[j] == wires[j].to,
        decreases wires.len() - k,
    {
        ends.push(wires[k].to);
        k += 1;
    }
    ends
}

/// Where each wire of a list starts.
pub(crate) fn wire_starts(wires: &Vec<Wire>) -> (starts: Vec<OutPort>)
    ensures
        starts.len() == wires.len(),
        forall|k: int| 0 <= k < starts.len() ==> #[trigger] starts[k] == wires[k].from,
{
    let mut starts: Vec<OutPort> = Vec::new();
    let mut k: usize = 0;
    while k < wires.len()
        invariant
            k <= wires.len(),
            starts.len() == k,
            forall|j: int| 0 <= j < starts.len() ==> #[trigger] starts[j] == wires[j].from,
        decreases wires.len() - k,
    {
        starts.push(wires[k].from);
        k += 1;
    }
    starts
}

/// The names of the given input ports, in their order.
pub(crate) fn input_names(snarl: &Snarl<Node>, pins: &Vec<InPort>) -> (names: Vec<String>)
    requires
        forall|k: int| 0 <= k < pins.len() ==> has_input(snarl_nodes(*snarl), #[trigger] pins[k]),
    ensures
        names.len() == pins.len(),
        forall|k: int|
            0 <= k < names.len() ==> (#[trigger] names[k])@ == input_name(placed(*snarl), pins[k]),
{
    let mut names: Vec<String> = Vec::new();
    let mut k: usize = 0;
    while k < pins.len()
        invariant
            k <= pins.len(),
            names.len() == k,
            forall|j: int|
                0 <= j < pins.len() ==> has_input(snarl_nodes(*snarl), #[trigger] pins[j]),
            forall|j: int|
                0 <= j < names.len() ==> (#[trigger] names[j])@ == input_name(
                    placed(*snarl),
                    pins[j],
                ),
        decreases pins.len() - k,
    {
        let pin = pins[k];
        let name = match snarl_get_node(snarl, pin.node) {
            Some(node) => node.inputs[pin.input].name.clone(),
            None => unreached(),
        };
        names.push(name);
        k += 1;
    }
    names
}

/// The names of the given output ports, in their order.
pub(crate) fn output_names(snarl: &Snarl<Node>, pins: &Vec<OutPort>) -> (names: Vec<String>)
    requires
        forall|k: int| 0 <= k < pins.len() ==> has_output(snarl_nodes(*snarl), #[trigger] pins[k]),
    ensures
        names.len() == pins.len(),
        forall|k: int|
            0 <= k < names.len() ==> (#[trigger] names[k])@ == output_name(placed(*snarl), pins[k]),
{
    let mut names: Vec<String> = Vec::new();
    let mut k: usize = 0;
    while k < pins.len()
        invariant
            k <= pins.len(),
            names.len() == k,
            forall|j: int|
                0 <= j < pins.len() ==> has_output(snarl_nodes(*snarl), #[trigger] pins[j]),
            forall|j: int|
                0 <= j < names.len() ==> (#[trigger] names[j])@ == output_name(
                    placed(*snarl),
                    pins[j],
                ),
        decreases pins.len() - k,
    {
        let pin = pins[k];
        let name = match snarl_get_node(snarl, pin.node) {
            Some(node) => node.outputs[pin.output].name.clone(),
            None => unreached(),
        };
        names.push(name);
        k += 1;
    }
    names
}

/// Adds one input port of kind `Internal` for each name, behind the ports
/// that the list holds.
pub(crate) fn expose_inputs(ports: &mut Vec<Input>, names: &Vec<String>)
    ensures
        final(ports).len() == old(ports).len() + names.len(),
        forall|i: int| 0 <= i < old(ports).len() ==> final(ports)[i] == old(ports)[i],
        forall|k: int|
            0 <= k < names.len() ==> (#[trigger] final(ports)[old(ports).len() + k])@ == (Port {
                name: names[k]@,
                kind: PortKind::Internal,
            }),
{
    let mut k: usize = 0;
    while k < names.len()
        invariant
            k <= names.len(),
            ports.len() == old(ports).len() + k,
            forall|i: int| 0 <= i < old(ports).len() ==> ports[i] == old(ports)[i],
            forall|j: int|
                0 <= j < k ==> (#[trigger] ports[old(ports).len() + j])@ == (Port {
                    name: names[j]@,
                    kind: PortKind::Internal,
                }),
        decreases names.len() - k,
    {
        ports.push(Input { name: names[k].clone(), kind: PortKind::Internal });
        k += 1;
    }
}

/// Adds one output port of kind `Internal` for each name, behind the ports
/// that the list holds.
pub(crate) fn expose_outputs(ports: &mut Vec<Output>, names: &Vec<String>)
    ensures
        final(ports).len() == old(ports).len() + names.len(),
        forall|i: int| 0 <= i < old(ports).len() ==> final(ports)[i] == old(ports)[i],
        forall|k: int|
            0 <= k < names.len() ==> (#[trigger] final(ports)[old(ports).len() + k])@ == (Port {
                name: names[k]@,
                kind: PortKind::Internal,
            }),
{
    let mut k: usize = 0;
    while k < names.len()
        invariant
            k <= names.len(),
            ports.len() == old(ports).len() + k,
            forall|i: int| 0 <= i < old(ports).len() ==> ports[i] == old(ports)[i],
            forall|j: int|
                0 <= j < k ==> (#[trigger] ports[old(ports).len() + j])@ == (Port {
                    name: names[j]@,
                    kind: PortKind::Internal,
                }),
        decreases names.len() - k,
    {
        ports.push(Output { name: names[k].clone(), kind: PortKind::Internal });
        k += 1;
    }
}

} // verus!
