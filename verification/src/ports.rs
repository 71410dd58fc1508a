//! Dropping the wires of a port, and with them the port where it is an
//! ordinary one.

use vstd::prelude::*;
use egui_snarl::Snarl;
use crate::boundary::connect_all;
use crate::graph::{has_input, has_output, valid_graph, well_formed, wire_in_range};
use crate::node::{Node, NodeView, PortKind};
use crate::snarl::{
    snarl_disconnect, snarl_drop_inputs, snarl_drop_outputs, snarl_get_node, snarl_get_node_mut,
    snarl_nodes, snarl_positions, snarl_wire_list, snarl_wires,
};
use crate::wire::{InPort, OutPort, Wire};

verus! {

broadcast use {vstd::seq_lib::group_seq_properties, vstd::set::group_set_axioms};

/// Every wire joins two ports that exist.
pub open spec fn wires_in_range(nodes: Map<usize, NodeView>, wires: Set<Wire>) -> bool {
    forall|w: Wire| wires.contains(w) ==> wire_in_range(nodes, w)
}

/// The input port exists and is of kind `Normal`.
pub open spec fn ordinary_input(nodes: Map<usize, NodeView>, pin: InPort) -> bool {
    has_input(nodes, pin) && nodes[pin.node].inputs[pin.input as int].kind == PortKind::Normal
}

/// The output port exists and is of kind `Normal`.
pub open spec fn ordinary_output(nodes: Map<usize, NodeView>, pin: OutPort) -> bool {
    has_output(nodes, pin) && nodes[pin.node].outputs[pin.output as int].kind == PortKind::Normal
}

/// The wire ends on the node of `pin`, at an input behind it, and starts on
/// a node that the graph has.
pub open spec fn behind_input(nodes: Map<usize, NodeView>, wire: Wire, pin: InPort) -> bool {
    wire.to.node == pin.node && wire.to.input > pin.input && nodes.dom().contains(wire.from.node)
}

/// The wire starts on the node of `pin`, at an output behind it, and ends on
/// a node that the graph has.
pub open spec fn behind_output(nodes: Map<usize, NodeView>, wire: Wire, pin: OutPort) -> bool {
    wire.from.node == pin.node && wire.from.output > pin.output && nodes.dom().contains(
        wire.to.node,
    )
}

/// Where a wire ends after the input port `pin` has left its node: a wire to
/// an input behind it moves down by one, any other stays. (So does a wire
/// from a node that the graph does not have: the container joins only nodes
/// that it holds.)
pub open spec fn lowered_input(nodes: Map<usize, NodeView>, pin: InPort) -> spec_fn(Wire) -> Wire {
    |w: Wire|
        if behind_input(nodes, w, pin) {
            Wire { from: w.from, to: InPort { node: w.to.node, input: (w.to.input - 1) as usize } }
        } else {
            w
        }
}

/// Where a wire starts after the output port `pin` has left its node: a wire
/// from an output behind it moves down by one, any other stays. (So does a
/// wire to a node that the graph does not have.)
pub open spec fn lowered_output(nodes: Map<usize, NodeView>, pin: OutPort) -> spec_fn(Wire) -> Wire {
    |w: Wire|
        if behind_output(nodes, w, pin) {
            Wire {
                from: OutPort { node: w.from.node, output: (w.from.output - 1) as usize },
                to: w.to,
            }
        } else {
            w
        }
}

/// The nodes after the wires of an input port were dropped: an ordinary
/// port leaves its node's list, and nothing else changes.
pub open spec fn nodes_without_input(nodes: Map<usize, NodeView>, pin: InPort) -> Map<
    usize,
    NodeView,
> {
    if ordinary_input(nodes, pin) {
        nodes.insert(
            pin.node,
            NodeView { inputs: nodes[pin.node].inputs.remove(pin.input as int), ..nodes[pin.node] },
        )
    } else {
        nodes
    }
}

/// The nodes after the wires of an output port were dropped: an ordinary
/// port leaves its node's list, and nothing else changes.
pub open spec fn nodes_without_output(nodes: Map<usize, NodeView>, pin: OutPort) -> Map<
    usize,
    NodeView,
> {
    if ordinary_output(nodes, pin) {
        nodes.insert(
            pin.node,
            NodeView {
                outputs: nodes[pin.node].outputs.remove(pin.output as int),
                ..nodes[pin.node]
            },
        )
    } else {
        nodes
    }
}

/// The wires after those of an input port were dropped. Where the graph has
/// the port's node, the wires into the port are gone, and where the port was
/// an ordinary one, the wires into the ports behind it have moved down with
/// their ports. Where the graph has no such node, the wires are as they
/// were.
pub open spec fn wires_without_input(nodes: Map<usize, NodeView>, wires: Set<Wire>, pin: InPort) -> Set<
    Wire,
> {
    let kept = wires.filter(|w: Wire| w.to != pin);
    if !nodes.dom().contains(pin.node) {
        wires
    } else if ordinary_input(nodes, pin) {
        kept.map(lowered_input(nodes, pin))
    } else {
        kept
    }
}

/// The wires after those of an output port were dropped. Where the graph
/// has the port's node, the wires from the port are gone, and where the port
/// was an ordinary one, the wires from the ports behind it have moved down
/// with their ports. Where the graph has no such node, the wires are as they
/// were.
pub open spec fn wires_without_output(
    nodes: Map<usize, NodeView>,
    wires: Set<Wire>,
    pin: OutPort,
) -> Set<Wire> {
    let kept = wires.filter(|w: Wire| w.from != pin);
    if !nodes.dom().contains(pin.node) {
        wires
    } else if ordinary_output(nodes, pin) {
        kept.map(lowered_output(nodes, pin))
    } else {
        kept
    }
}

/// Takes the wires of a list out of the graph.
fn disconnect_all(snarl: &mut Snarl<Node>, list: &Vec<Wire>)
    requires
        forall|k: int|
            0 <= k < list.len() ==> snarl_nodes(*old(snarl)).dom().contains(
                (#[trigger] list[k]).from.node,
            ) && snarl_nodes(*old(snarl)).dom().contains(list[k].to.node),
    ensures
        snarl_nodes(*final(snarl)) == snarl_nodes(*old(snarl)),
        snarl_positions(*final(snarl)) == snarl_positions(*old(snarl)),
        snarl_wires(*final(snarl)) == snarl_wires(*old(snarl)).difference(list@.to_set()),
{
    let mut k: usize = 0;
    proof {
        assert(snarl_wires(*snarl) =~= snarl_wires(*snarl).difference(list@.take(0).to_set()));
    }
    while k < list.len()
        invariant
            k <= list.len(),
            snarl_nodes(*snarl) == snarl_nodes(*old(snarl)),
            snarl_positions(*snarl) == snarl_positions(*old(snarl)),
            forall|j: int|
                0 <= j < list.len() ==> snarl_nodes(*old(snarl)).dom().contains(
                    (#[trigger] list[j]).from.node,
                ) && snarl_nodes(*old(snarl)).dom().contains(list[j].to.node),
            snarl_wires(*snarl) == snarl_wires(*old(snarl)).difference(
                list@.take(k as int).to_set(),
            ),
        decreases list.len() - k,
    {
        let wire = list[k];
        snarl_disconnect(snarl, wire);
        proof {
            list@.lemma_take_succ_push(k as int);
            list@.take(k as int).lemma_push_to_set_commute(wire);
            assert(snarl_wires(*snarl) =~= snarl_wires(*old(snarl)).difference(
                list@.take(k as int + 1).to_set(),
            ));
        }
        k += 1;
    }
    proof {
        list@.lemma_take_len();
    }
}

/// The wires of a list that end behind an input port, and where each of
/// them ends once the port has left.
fn wires_behind_input(snarl: &Snarl<Node>, all: &Vec<Wire>, pin: InPort) -> (found: (
    Vec<Wire>,
    Vec<Wire>,
))
    ensures
        found.0@ == all@.filter(|w: Wire| behind_input(snarl_nodes(*snarl), w, pin)),
        found.1@ == found.0@.map_values(lowered_input(snarl_nodes(*snarl), pin)),
{
    let ghost nodes = snarl_nodes(*snarl);
    let mut behind: Vec<Wire> = Vec::new();
    let mut lowered: Vec<Wire> = Vec::new();
    let mut i: usize = 0;
    while i < all.len()
        invariant
            i <= all.len(),
            nodes == snarl_nodes(*snarl),
            behind@ == all@.take(i as int).filter(|w: Wire| behind_input(nodes, w, pin)),
            lowered@ =~= behind@.map_values(lowered_input(nodes, pin)),
        decreases all.len() - i,
    {
        let w = all[i];
        proof {
            all@.lemma_take_succ_push(i as int);
            all@.take(i as int).lemma_filter_push(w, |w: Wire| behind_input(nodes, w, pin));
        }
        if w.to.node == pin.node && w.to.input > pin.input && snarl_get_node(
            snarl,
            w.from.node,
        ).is_some() {
            behind.push(w);
            lowered.push(Wire { from: w.from, to: InPort { node: w.to.node, input: w.to.input - 1 } });
        }
        i += 1;
    }
    proof {
        all@.lemma_take_len();
    }
    (behind, lowered)
}

/// The wires of a list that start behind an output port, and where each of
/// them starts once the port has left.
fn wires_behind_output(snarl: &Snarl<Node>, all: &Vec<Wire>, pin: OutPort) -> (found: (
    Vec<Wire>,
    Vec<Wire>,
))
    ensures
        found.0@ == all@.filter(|w: Wire| behind_output(snarl_nodes(*snarl), w, pin)),
        found.1@ == found.0@.map_values(lowered_output(snarl_nodes(*snarl), pin)),
{
    let ghost nodes = snarl_nodes(*snarl);
    let mut behind: Vec<Wire> = Vec::new();
    let mut lowered: Vec<Wire> = Vec::new();
    let mut i: usize = 0;
    while i < all.len()
        invariant
            i <= all.len(),
            nodes == snarl_nodes(*snarl),
            behind@ == all@.take(i as int).filter(|w: Wire| behind_output(nodes, w, pin)),
            lowered@ =~= behind@.map_values(lowered_output(nodes, pin)),
        decreases all.len() - i,
    {
        let w = all[i];
        proof {
            all@.lemma_take_succ_push(i as int);
            all@.take(i as int).lemma_filter_push(w, |w: Wire| behind_output(nodes, w, pin));
        }
        if w.from.node == pin.node && w.from.output > pin.output && snarl_get_node(
            snarl,
            w.to.node,
        ).is_some() {
            behind.push(w);
            lowered.push(
                Wire { from: OutPort { node: w.from.node, output: w.from.output - 1 }, to: w.to },
            );
        }
        i += 1;
    }
    proof {
        all@.lemma_take_len();
    }
    (behind, lowered)
}

/// The wires of a list that satisfy a test are those of the list's set
/// that do.
proof fn lemma_filter_to_set(list: Seq<Wire>, test: spec_fn(Wire) -> bool)
    ensures
        list.filter(test).to_set() =~= list.to_set().filter(test),
{
    assert forall|w: Wire| list.filter(test).to_set().contains(w) <==> list.to_set().filter(
        test,
    ).contains(w) by {
        if list.filter(test).contains(w) {
            let i = choose|i: int| 0 <= i < list.filter(test).len() && list.filter(test)[i] == w;
            list.lemma_filter_pred(test, i);
            list.lemma_filter_contains_rev(test, w);
        }
        if list.contains(w) && test(w) {
            let i = choose|i: int| 0 <= i < list.len() && list[i] == w;
            list.lemma_filter_contains(test, i);
        }
    }
}

/// Dropping the wires of an input port, and the port where it is an
/// ordinary one, leaves every wire between two ports that exist, and leaves
/// a well-formed graph well formed.
pub proof fn lemma_input_dropped(nodes: Map<usize, NodeView>, wires: Set<Wire>, pin: InPort)
    requires
        wires_in_range(nodes, wires),
    ensures
        wires_in_range(nodes_without_input(nodes, pin), wires_without_input(nodes, wires, pin)),
        valid_graph(nodes, wires) ==> valid_graph(
            nodes_without_input(nodes, pin),
            wires_without_input(nodes, wires, pin),
        ),
{
    let after = nodes_without_input(nodes, pin);
    let kept = wires.filter(|w: Wire| w.to != pin);
    let left = wires_without_input(nodes, wires, pin);
    let f = lowered_input(nodes, pin);
    assert forall|w: Wire| left.contains(w) implies wire_in_range(after, w) by {
        if ordinary_input(nodes, pin) {
            let v = choose|v: Wire| kept.contains(v) && w == f(v);
            assert(wire_in_range(nodes, v));
        } else {
            assert(wire_in_range(nodes, w));
        }
    }
    if valid_graph(nodes, wires) {
        assert(left.finite()) by {
            vstd::set_lib::lemma_set_subset_finite(wires, kept);
            kept.lemma_map_finite(f);
        }
        assert forall|a: Wire, b: Wire| left.contains(a) && left.contains(b) && a.to == b.to implies a
            == b by {
            if ordinary_input(nodes, pin) {
                let va = choose|v: Wire| kept.contains(v) && a == f(v);
                let vb = choose|v: Wire| kept.contains(v) && b == f(v);
                assert(va.to == vb.to);
            }
        }
    }
}

/// Dropping the wires of an output port, and the port where it is an
/// ordinary one, leaves every wire between two ports that exist, and leaves
/// a well-formed graph well formed.
pub proof fn lemma_output_dropped(nodes: Map<usize, NodeView>, wires: Set<Wire>, pin: OutPort)
    requires
        wires_in_range(nodes, wires),
    ensures
        wires_in_range(nodes_without_output(nodes, pin), wires_without_output(nodes, wires, pin)),
        valid_graph(nodes, wires) ==> valid_graph(
            nodes_without_output(nodes, pin),
            wires_without_output(nodes, wires, pin),
        ),
{
    let after = nodes_without_output(nodes, pin);
    let kept = wires.filter(|w: Wire| w.from != pin);
    let left = wires_without_output(nodes, wires, pin);
    let f = lowered_output(nodes, pin);
    assert forall|w: Wire| left.contains(w) implies wire_in_range(after, w) by {
        if ordinary_output(nodes, pin) {
            let v = choose|v: Wire| kept.contains(v) && w == f(v);
            assert(wire_in_range(nodes, v));
        } else {
            assert(wire_in_range(nodes, w));
        }
    }
    if valid_graph(nodes, wires) {
        assert(left.finite()) by {
            vstd::set_lib::lemma_set_subset_finite(wires, kept);
            kept.lemma_map_finite(f);
        }
        assert forall|a: Wire, b: Wire| left.contains(a) && left.contains(b) && a.to == b.to implies a
            == b by {
            if ordinary_output(nodes, pin) {
                let va = choose|v: Wire| kept.contains(v) && a == f(v);
                let vb = choose|v: Wire| kept.contains(v) && b == f(v);
                assert(va.to == vb.to);
            }
        }
    }
}

/// Drops every wire that ends at an input port. An ordinary port, of kind
/// `Normal`, leaves its node with its wires: the ports behind it move down
/// by one, and the wires into them move with them. A port of a boundary
/// stays. Returns how many input ports the node has left. Where the graph
/// has no such node, nothing changes and the result is 0.
///
/// A graph in which every wire joins two ports that exist is left such a
/// graph, and a well-formed graph well formed.
pub fn drop_inputs(snarl: &mut Snarl<Node>, pin: InPort) -> (left: usize)
    ensures
        snarl_nodes(*final(snarl)) == nodes_without_input(snarl_nodes(*old(snarl)), pin),
        snarl_positions(*final(snarl)) == snarl_positions(*old(snarl)),
        snarl_wires(*final(snarl)) == wires_without_input(
            snarl_nodes(*old(snarl)),
            snarl_wires(*old(snarl)),
            pin,
        ),
        left == if snarl_nodes(*old(snarl)).dom().contains(pin.node) {
            snarl_nodes(*final(snarl))[pin.node].inputs.len()
        } else {
            0
        },
        wires_in_range(snarl_nodes(*old(snarl)), snarl_wires(*old(snarl))) ==> wires_in_range(
            snarl_nodes(*final(snarl)),
            snarl_wires(*final(snarl)),
        ),
        well_formed(*old(snarl)) ==> well_formed(*final(snarl)),
{
    let ghost nodes0 = snarl_nodes(*snarl);
    let ghost wires0 = snarl_wires(*snarl);
    let ghost kept = wires0.filter(|w: Wire| w.to != pin);
    proof {
        if wires_in_range(nodes0, wires0) {
            lemma_input_dropped(nodes0, wires0, pin);
        }
    }
    let (count, ordinary) = match snarl_get_node(snarl, pin.node) {
        Some(node) => (
            node.inputs.len(),
            pin.input < node.inputs.len() && match node.inputs[pin.input].kind {
                PortKind::Normal => true,
                _ => false,
            },
        ),
        None => {
            return 0;
        },
    };
    assert(ordinary == ordinary_input(nodes0, pin));
    snarl_drop_inputs(snarl, pin);
    if !ordinary {
        return count;
    }
    match snarl_get_node_mut(snarl, pin.node) {
        Some(node) => {
            let ghost was = node@;
            node.inputs.remove(pin.input);
            assert(node@.inputs =~= was.inputs.remove(pin.input as int));
            assert(node@.outputs =~= was.outputs);
        },
        None => {},
    }
    let all = snarl_wire_list(snarl);
    let (behind, lowered) = wires_behind_input(snarl, &all, pin);
    proof {
        let now = snarl_nodes(*snarl);
        lemma_filter_to_set(all@, |w: Wire| behind_input(now, w, pin));
        assert forall|k: int| 0 <= k < behind.len() implies kept.contains(#[trigger] behind[k])
            && behind_input(nodes0, behind[k], pin) && lowered[k] == lowered_input(nodes0, pin)(
            behind[k],
        ) by {
            assert(behind@.to_set().contains(behind[k]));
        }
    }
    disconnect_all(snarl, &behind);
    connect_all(snarl, &lowered);
    proof {
        let f = lowered_input(nodes0, pin);
        assert(snarl_wires(*snarl) =~= kept.map(f)) by {
            assert forall|v: Wire| snarl_wires(*snarl).contains(v) <==> kept.map(f).contains(v) by {
                if lowered@.to_set().contains(v) {
                    let k = choose|k: int| 0 <= k < lowered.len() && lowered[k] == v;
                    assert(kept.contains(behind[k]) && v == f(behind[k]));
                }
                if kept.contains(v) && !behind@.to_set().contains(v) {
                    assert(v == f(v));
                }
                if kept.map(f).contains(v) {
                    let w = choose|w: Wire| kept.contains(w) && v == f(w);
                    if behind_input(nodes0, w, pin) {
                        assert(behind@.to_set().contains(w));
                        let k = choose|k: int| 0 <= k < behind.len() && behind[k] == w;
                        assert(lowered[k] == v);
                    }
                }
            }
        }
    }
    count - 1
}

/// Drops every wire that starts at an output port. An ordinary port, of
/// kind `Normal`, leaves its node with its wires: the ports behind it move
/// down by one, and the wires from them move with them. A port of a
/// boundary stays. Returns how many output ports the node has left. Where
/// the graph has no such node, nothing changes and the result is 0.
///
/// A graph in which every wire joins two ports that exist is left such a
/// graph, and a well-formed graph well formed.
pub fn drop_outputs(snarl: &mut Snarl<Node>, pin: OutPort) -> (left: usize)
    ensures
        snarl_nodes(*final(snarl)) == nodes_without_output(snarl_nodes(*old(snarl)), pin),
        snarl_positions(*final(snarl)) == snarl_positions(*old(snarl)),
        snarl_wires(*final(snarl)) == wires_without_output(
            snarl_nodes(*old(snarl)),
            snarl_wires(*old(snarl)),
            pin,
        ),
        left == if snarl_nodes(*old(snarl)).dom().contains(pin.node) {
            snarl_nodes(*final(snarl))[pin.node].outputs.len()
        } else {
            0
        },
        wires_in_range(snarl_nodes(*old(snarl)), snarl_wires(*old(snarl))) ==> wires_in_range(
            snarl_nodes(*final(snarl)),
            snarl_wires(*final(snarl)),
        ),
        well_formed(*old(snarl)) ==> well_formed(*final(snarl)),
{
    let ghost nodes0 = snarl_nodes(*snarl);
    let ghost wires0 = snarl_wires(*snarl);
    let ghost kept = wires0.filter(|w: Wire| w.from != pin);
    proof {
        if wires_in_range(nodes0, wires0) {
            lemma_output_dropped(nodes0, wires0, pin);
        }
    }
    let (count, ordinary) = match snarl_get_node(snarl, pin.node) {
        Some(node) => (
            node.outputs.len(),
            pin.output < node.outputs.len() && match node.outputs[pin.output].kind {
                PortKind::Normal => true,
                _ => false,
            },
        ),
        None => {
            return 0;
        },
    };
    assert(ordinary == ordinary_output(nodes0, pin));
    snarl_drop_outputs(snarl, pin);
    if !ordinary {
        return count;
    }
    match snarl_get_node_mut(snarl, pin.node) {
        Some(node) => {
            let ghost was = node@;
            node.outputs.remove(pin.output);
            assert(node@.outputs =~= was.outputs.remove(pin.output as int));
            assert(node@.inputs =~= was.inputs);
        },
        None => {},
    }
    let all = snarl_wire_list(snarl);
    let (behind, lowered) = wires_behind_output(snarl, &all, pin);
    proof {
        let now = snarl_nodes(*snarl);
        lemma_filter_to_set(all@, |w: Wire| behind_output(now, w, pin));
        assert forall|k: int| 0 <= k < behind.len() implies kept.contains(#[trigger] behind[k])
            && behind_output(nodes0, behind[k], pin) && lowered[k] == lowered_output(nodes0, pin)(
            behind[k],
        ) by {
            assert(behind@.to_set().contains(behind[k]));
        }
    }
    disconnect_all(snarl, &behind);
    connect_all(snarl, &lowered);
    proof {
        let f = lowered_output(nodes0, pin);
        assert(snarl_wires(*snarl) =~= kept.map(f)) by {
            assert forall|v: Wire| snarl_wires(*snarl).contains(v) <==> kept.map(f).contains(v) by {
                if lowered@.to_set().contains(v) {
                    let k = choose|k: int| 0 <= k < lowered.len() && lowered[k] == v;
                    assert(kept.contains(behind[k]) && v == f(behind[k]));
                }
                if kept.contains(v) && !behind@.to_set().contains(v) {
                    assert(v == f(v));
                }
                if kept.map(f).contains(v) {
                    let w = choose|w: Wire| kept.contains(w) && v == f(w);
                    if behind_output(nodes0, w, pin) {
                        assert(behind@.to_set().contains(w));
                        let k = choose|k: int| 0 <= k < behind.len() && behind[k] == w;
                        assert(lowered[k] == v);
                    }
                }
            }
        }
    }
    count - 1
}

} // verus!
