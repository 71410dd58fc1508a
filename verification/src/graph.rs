//! A graph of nodes and wires: what makes one well formed, and the
//! operations that change or read it.
//!
//! The graph is the container of `egui_snarl`. Every operation here says what
//! it does to the graph's nodes, positions and wires, and keeps a well-formed
//! graph well formed.

use vstd::prelude::*;
use egui::Pos2;
use egui_snarl::Snarl;
use crate::node::{Input, Node, NodeView, Output, Port};
use crate::snarl::{
    snarl_connect, snarl_disconnect, snarl_drop_inputs, snarl_get_node, snarl_get_node_mut,
    snarl_in_pin, snarl_insert_node, snarl_node_ids, snarl_node_position, snarl_nodes,
    snarl_out_pin, snarl_positions, snarl_remove_node, snarl_wire_list, snarl_wires,
};
use crate::wire::{InPort, OutPort, Wire};

verus! {

broadcast use vstd::seq_lib::group_seq_properties;

/// The output port is one of a node of `nodes`.
pub open spec fn has_output(nodes: Map<usize, NodeView>, pin: OutPort) -> bool {
    nodes.dom().contains(pin.node) && pin.output < nodes[pin.node].outputs.len()
}

/// The input port is one of a node of `nodes`.
pub open spec fn has_input(nodes: Map<usize, NodeView>, pin: InPort) -> bool {
    nodes.dom().contains(pin.node) && pin.input < nodes[pin.node].inputs.len()
}

/// Both ends of the wire are ports of nodes of `nodes`.
pub open spec fn wire_in_range(nodes: Map<usize, NodeView>, wire: Wire) -> bool {
    has_output(nodes, wire.from) && has_input(nodes, wire.to)
}

/// The input port exists and carries no wire.
pub open spec fn open_input(nodes: Map<usize, NodeView>, wires: Set<Wire>, pin: InPort) -> bool {
    has_input(nodes, pin) && forall|from: OutPort| !wires.contains(Wire { from, to: pin })
}

/// The output port exists and carries no wire.
pub open spec fn open_output(nodes: Map<usize, NodeView>, wires: Set<Wire>, pin: OutPort) -> bool {
    has_output(nodes, pin) && forall|to: InPort| !wires.contains(Wire { from: pin, to })
}

/// The order of input ports: by node, then by index.
pub open spec fn input_before(a: InPort, b: InPort) -> bool {
    a.node < b.node || (a.node == b.node && a.input < b.input)
}

/// The order of output ports: by node, then by index.
pub open spec fn output_before(a: OutPort, b: OutPort) -> bool {
    a.node < b.node || (a.node == b.node && a.output < b.output)
}

/// The nodes of a graph, each with its position.
pub open spec fn placed(snarl: Snarl<Node>) -> Map<usize, (NodeView, Pos2)> {
    Map::new(
        |id: usize| snarl_nodes(snarl).dom().contains(id),
        |id: usize| (snarl_nodes(snarl)[id], snarl_positions(snarl)[id]),
    )
}

/// The nodes of a map of placed nodes, without their positions.
pub open spec fn nodes_of(placed: Map<usize, (NodeView, Pos2)>) -> Map<usize, NodeView> {
    placed.map_values(|item: (NodeView, Pos2)| item.0)
}

/// A graph's placed nodes without their positions are its nodes.
pub proof fn lemma_nodes_of_placed(snarl: Snarl<Node>)
    ensures
        nodes_of(placed(snarl)) == snarl_nodes(snarl),
{
}

/// The name of an input port of a placed node.
pub open spec fn input_name(placed: Map<usize, (NodeView, Pos2)>, pin: InPort) -> Seq<char> {
    placed[pin.node].0.inputs[pin.input as int].name
}

/// The name of an output port of a placed node.
pub open spec fn output_name(placed: Map<usize, (NodeView, Pos2)>, pin: OutPort) -> Seq<char> {
    placed[pin.node].0.outputs[pin.output as int].name
}

/// Nodes and wires that belong together: the wires are finitely many, each
/// joins two ports that exist, and no input port carries more than one.
pub open spec fn valid_graph(nodes: Map<usize, NodeView>, wires: Set<Wire>) -> bool {
    &&& wires.finite()
    &&& forall|w: Wire| wires.contains(w) ==> wire_in_range(nodes, w)
    &&& forall|a: Wire, b: Wire|
        #![trigger wires.contains(a), wires.contains(b)]
        wires.contains(a) && wires.contains(b) && a.to == b.to ==> a == b
}

/// The graph's nodes and wires belong together.
pub open spec fn well_formed(snarl: Snarl<Node>) -> bool {
    valid_graph(snarl_nodes(snarl), snarl_wires(snarl))
}

/// Whether the node has an output port of that index.
fn output_exists(snarl: &Snarl<Node>, pin: OutPort) -> (found: bool)
    ensures
        found == has_output(snarl_nodes(*snarl), pin),
{
    match snarl_get_node(snarl, pin.node) {
        Some(node) => pin.output < node.outputs.len(),
        None => false,
    }
}

/// Whether the node has an input port of that index.
fn input_exists(snarl: &Snarl<Node>, pin: InPort) -> (found: bool)
    ensures
        found == has_input(snarl_nodes(*snarl), pin),
{
    match snarl_get_node(snarl, pin.node) {
        Some(node) => pin.input < node.inputs.len(),
        None => false,
    }
}

/// Tests whether the graph is well formed.
pub fn is_well_formed(snarl: &Snarl<Node>) -> (ok: bool)
    ensures
        ok == well_formed(*snarl),
{
    let wires = snarl_wire_list(snarl);
    let ghost nodes = snarl_nodes(*snarl);
    let ghost set = snarl_wires(*snarl);
    let mut i: usize = 0;
    while i < wires.len()
        invariant
            i <= wires.len(),
            nodes == snarl_nodes(*snarl),
            set == snarl_wires(*snarl),
            wires@.to_set() == set,
            forall|j: int| 0 <= j < i ==> wire_in_range(nodes, #[trigger] wires[j]),
            forall|j: int, w: Wire|
                #![trigger wires[j], set.contains(w)]
                0 <= j < i && set.contains(w) && w.to == wires[j].to ==> w == wires[j],
        decreases wires.len() - i,
    {
        let wire = wires[i];
        assert(set.contains(wire));
        if !output_exists(snarl, wire.from) || !input_exists(snarl, wire.to) {
            return false;
        }
        let remotes = snarl_in_pin(snarl, wire.to);
        if remotes.len() != 1 {
            proof {
                assert(remotes@.contains(wire.from));
                let a = remotes[0];
                let b = remotes[1];
                assert(remotes@.contains(a) && remotes@.contains(b));
            }
            return false;
        }
        proof {
            assert forall|w: Wire| set.contains(w) && w.to == wire.to implies w == wire by {
                assert(remotes@.contains(w.from));
                assert(remotes@.contains(wire.from));
            }
        }
        i += 1;
    }
    true
}

/// Stores a node at a position and returns the identifier that the graph
/// gave it: one that no node of the graph had.
pub fn insert_node(snarl: &mut Snarl<Node>, pos: Pos2, node: Node) -> (id: usize)
    ensures
        !snarl_nodes(*old(snarl)).dom().contains(id),
        snarl_nodes(*final(snarl)) == snarl_nodes(*old(snarl)).insert(id, node@),
        snarl_positions(*final(snarl)) == snarl_positions(*old(snarl)).insert(id, pos),
        snarl_wires(*final(snarl)) == snarl_wires(*old(snarl)),
        well_formed(*old(snarl)) ==> well_formed(*final(snarl)),
{
    snarl_insert_node(snarl, pos, node)
}

/// Takes a node out of the graph and hands it back; every wire with an end
/// on it is dropped first. Where the graph has no such node, nothing
/// changes.
pub fn remove_node(snarl: &mut Snarl<Node>, id: usize) -> (node: Option<Node>)
    ensures
        match node {
            Some(n) => {
                &&& snarl_nodes(*old(snarl)).dom().contains(id)
                &&& n@ == snarl_nodes(*old(snarl))[id]
                &&& snarl_nodes(*final(snarl)) == snarl_nodes(*old(snarl)).remove(id)
                &&& snarl_positions(*final(snarl)) == snarl_positions(*old(snarl)).remove(id)
                &&& snarl_wires(*final(snarl)) == snarl_wires(*old(snarl)).filter(
                    |w: Wire| w.from.node != id && w.to.node != id,
                )
            },
            None => {
                &&& !snarl_nodes(*old(snarl)).dom().contains(id)
                &&& *final(snarl) == *old(snarl)
            },
        },
        well_formed(*old(snarl)) ==> well_formed(*final(snarl)),
{
    if snarl_get_node(snarl, id).is_none() {
        return None;
    }
    let node = snarl_remove_node(snarl, id);
    Some(node)
}

/// Joins an output port to an input port. A wire that the input port
/// carried before is replaced, so joining the same two ports twice leaves
/// one wire. Where either port does not exist, nothing changes.
pub fn connect(snarl: &mut Snarl<Node>, wire: Wire) -> (connected: bool)
    ensures
        connected == wire_in_range(snarl_nodes(*old(snarl)), wire),
        snarl_nodes(*final(snarl)) == snarl_nodes(*old(snarl)),
        snarl_positions(*final(snarl)) == snarl_positions(*old(snarl)),
        connected ==> snarl_wires(*final(snarl)) == snarl_wires(*old(snarl)).filter(
            |w: Wire| w.to != wire.to,
        ).insert(wire),
        !connected ==> *final(snarl) == *old(snarl),
        well_formed(*old(snarl)) ==> well_formed(*final(snarl)),
{
    if !output_exists(snarl, wire.from) || !input_exists(snarl, wire.to) {
        return false;
    }
    snarl_drop_inputs(snarl, wire.to);
    snarl_connect(snarl, wire);
    true
}

/// Takes one wire out of the graph and says whether it did. A wire with
/// an end on a node that the graph does not have is not looked for.
pub fn disconnect(snarl: &mut Snarl<Node>, wire: Wire) -> (removed: bool)
    ensures
        removed == (snarl_nodes(*old(snarl)).dom().contains(wire.from.node) && snarl_nodes(
            *old(snarl),
        ).dom().contains(wire.to.node) && snarl_wires(*old(snarl)).contains(wire)),
        snarl_nodes(*final(snarl)) == snarl_nodes(*old(snarl)),
        snarl_positions(*final(snarl)) == snarl_positions(*old(snarl)),
        removed ==> snarl_wires(*final(snarl)) == snarl_wires(*old(snarl)).remove(wire),
        !removed ==> snarl_wires(*final(snarl)) == snarl_wires(*old(snarl)),
        well_formed(*old(snarl)) ==> well_formed(*final(snarl)),
{
    if snarl_get_node(snarl, wire.from.node).is_none() || snarl_get_node(snarl, wire.to.node).is_none() {
        return false;
    }
    let removed = snarl_disconnect(snarl, wire);
    removed
}

/// Gives the node a new input port, named "Input", behind those it has.
/// Where the graph has no such node, nothing changes.
pub fn add_input(snarl: &mut Snarl<Node>, id: usize) -> (added: bool)
    ensures
        added == snarl_nodes(*old(snarl)).dom().contains(id),
        added ==> snarl_nodes(*final(snarl)) == snarl_nodes(*old(snarl)).insert(
            id,
            (NodeView {
                inputs: snarl_nodes(*old(snarl))[id].inputs.push(Input::default_view()),
                ..snarl_nodes(*old(snarl))[id]
            }),
        ),
        !added ==> snarl_nodes(*final(snarl)) == snarl_nodes(*old(snarl)),
        snarl_positions(*final(snarl)) == snarl_positions(*old(snarl)),
        snarl_wires(*final(snarl)) == snarl_wires(*old(snarl)),
        well_formed(*old(snarl)) ==> well_formed(*final(snarl)),
{
    match snarl_get_node_mut(snarl, id) {
        Some(node) => {
            let ghost before = node@;
            node.inputs.push(Input::default());
            assert(node@.inputs =~= before.inputs.push(Input::default_view()));
            true
        },
        None => false,
    }
}

/// Gives the node a new output port, named "Output", behind those it has.
/// Where the graph has no such node, nothing changes.
pub fn add_output(snarl: &mut Snarl<Node>, id: usize) -> (added: bool)
    ensures
        added == snarl_nodes(*old(snarl)).dom().contains(id),
        added ==> snarl_nodes(*final(snarl)) == snarl_nodes(*old(snarl)).insert(
            id,
            (NodeView {
                outputs: snarl_nodes(*old(snarl))[id].outputs.push(Output::default_view()),
                ..snarl_nodes(*old(snarl))[id]
            }),
        ),
        !added ==> snarl_nodes(*final(snarl)) == snarl_nodes(*old(snarl)),
        snarl_positions(*final(snarl)) == snarl_positions(*old(snarl)),
        snarl_wires(*final(snarl)) == snarl_wires(*old(snarl)),
        well_formed(*old(snarl)) ==> well_formed(*final(snarl)),
{
    match snarl_get_node_mut(snarl, id) {
        Some(node) => {
            let ghost before = node@;
            node.outputs.push(Output::default());
            assert(node@.outputs =~= before.outputs.push(Output::default_view()));
            true
        },
        None => false,
    }
}

/// Gives a node a new name. Where the graph has no such node, nothing
/// changes.
pub fn rename_node(snarl: &mut Snarl<Node>, id: usize, name: String) -> (renamed: bool)
    ensures
        renamed == snarl_nodes(*old(snarl)).dom().contains(id),
        renamed ==> snarl_nodes(*final(snarl)) == snarl_nodes(*old(snarl)).insert(
            id,
            (NodeView { name: name@, ..snarl_nodes(*old(snarl))[id] }),
        ),
        !renamed ==> snarl_nodes(*final(snarl)) == snarl_nodes(*old(snarl)),
        snarl_positions(*final(snarl)) == snarl_positions(*old(snarl)),
        snarl_wires(*final(snarl)) == snarl_wires(*old(snarl)),
        well_formed(*old(snarl)) ==> well_formed(*final(snarl)),
{
    match snarl_get_node_mut(snarl, id) {
        Some(node) => {
            node.name = name;
            true
        },
        None => false,
    }
}

/// Gives an input port a new name. Where the graph has no such port,
/// nothing changes.
pub fn rename_input(snarl: &mut Snarl<Node>, pin: InPort, name: String) -> (renamed: bool)
    ensures
        renamed == has_input(snarl_nodes(*old(snarl)), pin),
        renamed ==> snarl_nodes(*final(snarl)) == snarl_nodes(*old(snarl)).insert(
            pin.node,
            (NodeView {
                inputs: snarl_nodes(*old(snarl))[pin.node].inputs.update(
                    pin.input as int,
                    Port {
                        name: name@,
                        kind: snarl_nodes(*old(snarl))[pin.node].inputs[pin.input as int].kind,
                    },
                ),
                ..snarl_nodes(*old(snarl))[pin.node]
            }),
        ),
        !renamed ==> snarl_nodes(*final(snarl)) == snarl_nodes(*old(snarl)),
        snarl_positions(*final(snarl)) == snarl_positions(*old(snarl)),
        snarl_wires(*final(snarl)) == snarl_wires(*old(snarl)),
        well_formed(*old(snarl)) ==> well_formed(*final(snarl)),
{
    match snarl_get_node_mut(snarl, pin.node) {
        Some(node) => {
            if pin.input < node.inputs.len() {
                let ghost before = node@;
                let kind = node.inputs[pin.input].kind;
                node.inputs.set(pin.input, Input { name, kind });
                assert(node@.inputs =~= before.inputs.update(
                    pin.input as int,
                    Port { name: name@, kind },
                ));
                true
            } else {
                false
            }
        },
        None => false,
    }
}

/// Gives an output port a new name. Where the graph has no such port,
/// nothing changes.
pub fn rename_output(snarl: &mut Snarl<Node>, pin: OutPort, name: String) -> (renamed: bool)
    ensures
        renamed == has_output(snarl_nodes(*old(snarl)), pin),
        renamed ==> snarl_nodes(*final(snarl)) == snarl_nodes(*old(snarl)).insert(
            pin.node,
            (NodeView {
                outputs: snarl_nodes(*old(snarl))[pin.node].outputs.update(
                    pin.output as int,
                    Port {
                        name: name@,
                        kind: snarl_nodes(*old(snarl))[pin.node].outputs[pin.output as int].kind,
                    },
                ),
                ..snarl_nodes(*old(snarl))[pin.node]
            }),
        ),
        !renamed ==> snarl_nodes(*final(snarl)) == snarl_nodes(*old(snarl)),
        snarl_positions(*final(snarl)) == snarl_positions(*old(snarl)),
        snarl_wires(*final(snarl)) == snarl_wires(*old(snarl)),
        well_formed(*old(snarl)) ==> well_formed(*final(snarl)),
{
    match snarl_get_node_mut(snarl, pin.node) {
        Some(node) => {
            if pin.output < node.outputs.len() {
                let ghost before = node@;
                let kind = node.outputs[pin.output].kind;
                node.outputs.set(pin.output, Output { name, kind });
                assert(node@.outputs =~= before.outputs.update(
                    pin.output as int,
                    Port { name: name@, kind },
                ));
                true
            } else {
                false
            }
        },
        None => false,
    }
}

/// The identifiers of all nodes, in rising order.
pub fn node_ids(snarl: &Snarl<Node>) -> (ids: Vec<usize>)
    ensures
        ids@.to_set() == snarl_nodes(*snarl).dom(),
        forall|i: int, j: int| 0 <= i < j < ids.len() ==> ids[i] < ids[j],
{
    snarl_node_ids(snarl)
}

/// The node under an identifier, if the graph has one.
pub fn node(snarl: &Snarl<Node>, id: usize) -> (found: Option<&Node>)
    ensures
        found.is_some() == snarl_nodes(*snarl).dom().contains(id),
        found.is_some() ==> found.unwrap()@ == snarl_nodes(*snarl)[id],
{
    snarl_get_node(snarl, id)
}

/// Where the node under an identifier is placed, if the graph has one.
pub fn position(snarl: &Snarl<Node>, id: usize) -> (found: Option<Pos2>)
    ensures
        found.is_some() == snarl_nodes(*snarl).dom().contains(id),
        found.is_some() ==> found.unwrap() == snarl_positions(*snarl)[id],
{
    snarl_node_position(snarl, id)
}

/// All wires of the graph, each once. The order is the container's and may
/// differ from call to call.
pub fn wires(snarl: &Snarl<Node>) -> (all: Vec<Wire>)
    ensures
        all@.no_duplicates(),
        all@.to_set() == snarl_wires(*snarl),
{
    snarl_wire_list(snarl)
}

/// The input ports that carry no wire, by node and then by index.
pub fn unconnected_inputs(snarl: &Snarl<Node>) -> (open: Vec<InPort>)
    ensures
        forall|i: int, j: int| 0 <= i < j < open.len() ==> input_before(open[i], open[j]),
        forall|pin: InPort|
            open@.contains(pin) <==> open_input(snarl_nodes(*snarl), snarl_wires(*snarl), pin),
{
    let ids = snarl_node_ids(snarl);
    let ghost nodes = snarl_nodes(*snarl);
    let ghost wires = snarl_wires(*snarl);
    let mut open: Vec<InPort> = Vec::new();
    let mut i: usize = 0;
    while i < ids.len()
        invariant
            i <= ids.len(),
            nodes == snarl_nodes(*snarl),
            wires == snarl_wires(*snarl),
            ids@.to_set() == nodes.dom(),
            forall|a: int, b: int| 0 <= a < b < ids.len() ==> ids[a] < ids[b],
            forall|a: int, b: int| 0 <= a < b < open.len() ==> input_before(open[a], open[b]),
            forall|pin: InPort|
                open@.contains(pin) <==> open_input(nodes, wires, pin) && ids@.take(i as int).contains(
                    pin.node,
                ),
        decreases ids.len() - i,
    {
        let id = ids[i];
        let count = match snarl_get_node(snarl, id) {
            Some(node) => node.inputs.len(),
            None => 0,
        };
        let mut n: usize = 0;
        while n < count
            invariant
                n <= count,
                i < ids.len(),
                id == ids[i as int],
                count == nodes[id].inputs.len(),
                nodes.dom().contains(id),
                nodes == snarl_nodes(*snarl),
                wires == snarl_wires(*snarl),
                forall|a: int, b: int| 0 <= a < b < ids.len() ==> ids[a] < ids[b],
                forall|a: int, b: int| 0 <= a < b < open.len() ==> input_before(open[a], open[b]),
                forall|pin: InPort|
                    open@.contains(pin) <==> open_input(nodes, wires, pin) && (ids@.take(
                        i as int,
                    ).contains(pin.node) || (pin.node == id && pin.input < n)),
            decreases count - n,
        {
            let pin = InPort { node: id, input: n };
            let remotes = snarl_in_pin(snarl, pin);
            if remotes.len() == 0 {
                proof {
                    assert forall|from: OutPort| !wires.contains(Wire { from, to: pin }) by {
                        assert(!remotes@.contains(from));
                    }
                    assert forall|a: int| 0 <= a < open.len() implies input_before(open[a], pin) by {
                        assert(open@.contains(open[a]));
                    }
                }
                open.push(pin);
            } else {
                proof {
                    assert(remotes@.contains(remotes[0]));
                }
            }
            n += 1;
        }
        i += 1;
    }
    open
}

/// The output ports that carry no wire, by node and then by index.
pub fn unconnected_outputs(snarl: &Snarl<Node>) -> (open: Vec<OutPort>)
    ensures
        forall|i: int, j: int| 0 <= i < j < open.len() ==> output_before(open[i], open[j]),
        forall|pin: OutPort|
            open@.contains(pin) <==> open_output(snarl_nodes(*snarl), snarl_wires(*snarl), pin),
{
    let ids = snarl_node_ids(snarl);
    let ghost nodes = snarl_nodes(*snarl);
    let ghost wires = snarl_wires(*snarl);
    let mut open: Vec<OutPort> = Vec::new();
    let mut i: usize = 0;
    while i < ids.len()
        invariant
            i <= ids.len(),
            nodes == snarl_nodes(*snarl),
            wires == snarl_wires(*snarl),
            ids@.to_set() == nodes.dom(),
            forall|a: int, b: int| 0 <= a < b < ids.len() ==> ids[a] < ids[b],
            forall|a: int, b: int| 0 <= a < b < open.len() ==> output_before(open[a], open[b]),
            forall|pin: OutPort|
                open@.contains(pin) <==> open_output(nodes, wires, pin) && ids@.take(
                    i as int,
                ).contains(pin.node),
        decreases ids.len() - i,
    {
        let id = ids[i];
        let count = match snarl_get_node(snarl, id) {
            Some(node) => node.outputs.len(),
            None => 0,
        };
        let mut n: usize = 0;
        while n < count
            invariant
                n <= count,
                i < ids.len(),
                id == ids[i as int],
                count == nodes[id].outputs.len(),
                nodes.dom().contains(id),
                nodes == snarl_nodes(*snarl),
                wires == snarl_wires(*snarl),
                forall|a: int, b: int| 0 <= a < b < ids.len() ==> ids[a] < ids[b],
                forall|a: int, b: int| 0 <= a < b < open.len() ==> output_before(open[a], open[b]),
                forall|pin: OutPort|
                    open@.contains(pin) <==> open_output(nodes, wires, pin) && (ids@.take(
                        i as int,
                    ).contains(pin.node) || (pin.node == id && pin.output < n)),
            decreases count - n,
        {
            let pin = OutPort { node: id, output: n };
            let remotes = snarl_out_pin(snarl, pin);
            if remotes.len() == 0 {
                proof {
                    assert forall|to: InPort| !wires.contains(Wire { from: pin, to }) by {
                        assert(!remotes@.contains(to));
                    }
                    assert forall|a: int| 0 <= a < open.len() implies output_before(open[a], pin) by {
                        assert(open@.contains(open[a]));
                    }
                }
                open.push(pin);
            } else {
                proof {
                    assert(remotes@.contains(remotes[0]));
                }
            }
            n += 1;
        }
        i += 1;
    }
    open
}

} // verus!
