//! The node-graph container of `egui_snarl`, as far as the diagram uses it.
//!
//! Nothing in this file is proved. Each function makes one call into the
//! container and states what that call does, as the container's source shows
//! it, over three maps that stand for a graph's contents: its nodes, their
//! positions and its wires.

use vstd::prelude::*;
use egui::Pos2;
use egui_snarl::{InPinId, NodeId, OutPinId, Snarl};
use crate::node::{Node, NodeView};
use crate::wire::{InPort, OutPort, Wire};

verus! {

#[verifier::external_type_specification]
#[verifier::external_body]
#[verifier::reject_recursive_types(T)]
pub struct ExSnarl<T>(Snarl<T>);

#[verifier::external_type_specification]
#[verifier::external_body]
pub struct ExPos2(Pos2);

/// The nodes that a graph holds, by identifier.
pub uninterp spec fn snarl_nodes(snarl: Snarl<Node>) -> Map<usize, NodeView>;

/// Where each node of a graph is placed.
pub uninterp spec fn snarl_positions(snarl: Snarl<Node>) -> Map<usize, Pos2>;

/// The wires that a graph holds.
pub uninterp spec fn snarl_wires(snarl: Snarl<Node>) -> Set<Wire>;

/// The point whose coordinates are the floats nearest to two integers.
pub uninterp spec fn point_at(x: int, y: int) -> Pos2;

/// The decimal digit for a number below ten.
pub open spec fn digit(d: nat) -> char {
    if d == 0 {
        '0'
    } else if d == 1 {
        '1'
    } else if d == 2 {
        '2'
    } else if d == 3 {
        '3'
    } else if d == 4 {
        '4'
    } else if d == 5 {
        '5'
    } else if d == 6 {
        '6'
    } else if d == 7 {
        '7'
    } else if d == 8 {
        '8'
    } else {
        '9'
    }
}

/// A number written in decimal, without sign or leading zeros.
pub open spec fn decimal(n: nat) -> Seq<char>
    decreases n,
{
    if n < 10 {
        seq![digit(n)]
    } else {
        decimal(n / 10).push(digit(n % 10))
    }
}

/// `format!` on a text and a number: the text, then the number in decimal.
#[verifier::external_body]
pub(crate) fn label(prefix: &str, n: usize) -> (text: String)
    ensures
        text@ == prefix@ + decimal(n as nat),
{
    format!("{}{}", prefix, n)
}

/// `egui::pos2`, which makes a point of two coordinates, on two integers
/// turned into floats.
#[verifier::external_body]
pub(crate) fn point(x: i128, y: i128) -> (pos: Pos2)
    ensures
        pos == point_at(x as int, y as int),
{
    egui::pos2(x as _, y as _)
}

/// `Snarl::new`: a graph without nodes and without wires.
#[verifier::external_body]
pub(crate) fn snarl_new() -> (graph: Snarl<Node>)
    ensures
        snarl_nodes(graph).dom() == Set::<usize>::empty(),
        snarl_positions(graph).dom() == Set::<usize>::empty(),
        snarl_wires(graph) == Set::<Wire>::empty(),
{
    Snarl::new()
}

/// `Snarl::insert_node`: stores the node at the position under an identifier
/// that no node of the graph has, and leaves the rest as it was.
#[verifier::external_body]
pub(crate) fn snarl_insert_node(snarl: &mut Snarl<Node>, pos: Pos2, node: Node) -> (id: usize)
    ensures
        !snarl_nodes(*old(snarl)).dom().contains(id),
        snarl_nodes(*final(snarl)) == snarl_nodes(*old(snarl)).insert(id, node@),
        snarl_positions(*final(snarl)) == snarl_positions(*old(snarl)).insert(id, pos),
        snarl_wires(*final(snarl)) == snarl_wires(*old(snarl)),
{
    snarl.insert_node(pos, node).0
}

/// `Snarl::remove_node`: takes the node out and hands it back, and drops
/// every wire with an end on it. It panics where the node is missing.
#[verifier::external_body]
pub(crate) fn snarl_remove_node(snarl: &mut Snarl<Node>, id: usize) -> (node: Node)
    requires
        snarl_nodes(*old(snarl)).dom().contains(id),
    ensures
        node@ == snarl_nodes(*old(snarl))[id],
        snarl_nodes(*final(snarl)) == snarl_nodes(*old(snarl)).remove(id),
        snarl_positions(*final(snarl)) == snarl_positions(*old(snarl)).remove(id),
        snarl_wires(*final(snarl)) == snarl_wires(*old(snarl)).filter(
            |w: Wire| w.from.node != id && w.to.node != id,
        ),
{
    snarl.remove_node(NodeId(id))
}

/// `Snarl::connect`: adds the wire to the set of wires, and says whether it
/// was new. It looks at no port index and drops no other wire. It panics
/// where either node is missing.
#[verifier::external_body]
pub(crate) fn snarl_connect(snarl: &mut Snarl<Node>, wire: Wire) -> (added: bool)
    requires
        snarl_nodes(*old(snarl)).dom().contains(wire.from.node),
        snarl_nodes(*old(snarl)).dom().contains(wire.to.node),
    ensures
        added == !snarl_wires(*old(snarl)).contains(wire),
        snarl_nodes(*final(snarl)) == snarl_nodes(*old(snarl)),
        snarl_positions(*final(snarl)) == snarl_positions(*old(snarl)),
        snarl_wires(*final(snarl)) == snarl_wires(*old(snarl)).insert(wire),
{
    snarl.connect(
        OutPinId { node: NodeId(wire.from.node), output: wire.from.output },
        InPinId { node: NodeId(wire.to.node), input: wire.to.input },
    )
}

/// `Snarl::disconnect`: takes the wire out of the set of wires, and says
/// whether it was there. It panics where either node is missing.
#[verifier::external_body]
pub(crate) fn snarl_disconnect(snarl: &mut Snarl<Node>, wire: Wire) -> (removed: bool)
    requires
        snarl_nodes(*old(snarl)).dom().contains(wire.from.node),
        snarl_nodes(*old(snarl)).dom().contains(wire.to.node),
    ensures
        removed == snarl_wires(*old(snarl)).contains(wire),
        snarl_nodes(*final(snarl)) == snarl_nodes(*old(snarl)),
        snarl_positions(*final(snarl)) == snarl_positions(*old(snarl)),
        snarl_wires(*final(snarl)) == snarl_wires(*old(snarl)).remove(wire),
{
    snarl.disconnect(
        OutPinId { node: NodeId(wire.from.node), output: wire.from.output },
        InPinId { node: NodeId(wire.to.node), input: wire.to.input },
    )
}

/// `Snarl::drop_inputs`: drops every wire that ends at the input port and
/// returns how many there were. It panics where the node is missing.
#[verifier::external_body]
pub(crate) fn snarl_drop_inputs(snarl: &mut Snarl<Node>, pin: InPort) -> (count: usize)
    requires
        snarl_nodes(*old(snarl)).dom().contains(pin.node),
    ensures
        count == snarl_wires(*old(snarl)).filter(|w: Wire| w.to == pin).len(),
        snarl_nodes(*final(snarl)) == snarl_nodes(*old(snarl)),
        snarl_positions(*final(snarl)) == snarl_positions(*old(snarl)),
        snarl_wires(*final(snarl)) == snarl_wires(*old(snarl)).filter(|w: Wire| w.to != pin),
{
    snarl.drop_inputs(InPinId { node: NodeId(pin.node), input: pin.input })
}

/// `Snarl::drop_outputs`: drops every wire that starts at the output port
/// and returns how many there were. It panics where the node is missing.
#[verifier::external_body]
pub(crate) fn snarl_drop_outputs(snarl: &mut Snarl<Node>, pin: OutPort) -> (count: usize)
    requires
        snarl_nodes(*old(snarl)).dom().contains(pin.node),
    ensures
        count == snarl_wires(*old(snarl)).filter(|w: Wire| w.from == pin).len(),
        snarl_nodes(*final(snarl)) == snarl_nodes(*old(snarl)),
        snarl_positions(*final(snarl)) == snarl_positions(*old(snarl)),
        snarl_wires(*final(snarl)) == snarl_wires(*old(snarl)).filter(|w: Wire| w.from != pin),
{
    snarl.drop_outputs(OutPinId { node: NodeId(pin.node), output: pin.output })
}

/// `Snarl::get_node`: the node under the identifier, if the graph has one.
#[verifier::external_body]
pub(crate) fn snarl_get_node(snarl: &Snarl<Node>, id: usize) -> (node: Option<&Node>)
    ensures
        node.is_some() == snarl_nodes(*snarl).dom().contains(id),
        node.is_some() ==> node.unwrap()@ == snarl_nodes(*snarl)[id],
{
    snarl.get_node(NodeId(id))
}

/// `Snarl::get_node_mut`: the node under the identifier, for changing in
/// place; nothing else of the graph changes with it.
#[verifier::external_body]
pub(crate) fn snarl_get_node_mut(snarl: &mut Snarl<Node>, id: usize) -> (node: Option<&mut Node>)
    ensures
        match node {
            Some(n) => {
                &&& snarl_nodes(*old(snarl)).dom().contains(id)
                &&& (*n)@ == snarl_nodes(*old(snarl))[id]
                &&& snarl_nodes(*final(snarl)) == snarl_nodes(*old(snarl)).insert(id, (*final(n))@)
                &&& snarl_positions(*final(snarl)) == snarl_positions(*old(snarl))
                &&& snarl_wires(*final(snarl)) == snarl_wires(*old(snarl))
            },
            None => {
                &&& !snarl_nodes(*old(snarl)).dom().contains(id)
                &&& *final(snarl) == *old(snarl)
            },
        },
{
    snarl.get_node_mut(NodeId(id))
}

/// `Snarl::get_node_info`, of which the position is handed out: where the
/// node under the identifier is placed, if the graph has one.
#[verifier::external_body]
pub(crate) fn snarl_node_position(snarl: &Snarl<Node>, id: usize) -> (pos: Option<Pos2>)
    ensures
        pos.is_some() == snarl_nodes(*snarl).dom().contains(id),
        pos.is_some() ==> pos.unwrap() == snarl_positions(*snarl)[id],
{
    snarl.get_node_info(NodeId(id)).map(|info| info.pos)
}

/// `Snarl::node_ids`: the identifiers of all nodes, in rising order.
#[verifier::external_body]
pub(crate) fn snarl_node_ids(snarl: &Snarl<Node>) -> (ids: Vec<usize>)
    ensures
        ids@.to_set() == snarl_nodes(*snarl).dom(),
        forall|i: int, j: int| 0 <= i < j < ids.len() ==> ids[i] < ids[j],
{
    snarl.node_ids().map(|(id, _)| id.0).collect()
}

/// `Snarl::wires`: every wire once, in an order that the container does not
/// fix.
#[verifier::external_body]
pub(crate) fn snarl_wire_list(snarl: &Snarl<Node>) -> (wires: Vec<Wire>)
    ensures
        wires@.no_duplicates(),
        wires@.to_set() == snarl_wires(*snarl),
{
    snarl.wires().map(|(from, to)| Wire {
        from: OutPort { node: from.node.0, output: from.output },
        to: InPort { node: to.node.0, input: to.input },
    }).collect()
}

/// `Snarl::in_pin`, of which the remote ends are handed out: the output
/// ports wired to the input port, each once, in no fixed order.
#[verifier::external_body]
pub(crate) fn snarl_in_pin(snarl: &Snarl<Node>, pin: InPort) -> (remotes: Vec<OutPort>)
    ensures
        remotes@.no_duplicates(),
        forall|from: OutPort| remotes@.contains(from) <==> snarl_wires(*snarl).contains(
            (Wire { from, to: pin }),
        ),
{
    snarl.in_pin(InPinId { node: NodeId(pin.node), input: pin.input }).remotes.iter().map(
        |from| OutPort { node: from.node.0, output: from.output },
    ).collect()
}

/// `Snarl::out_pin`, of which the remote ends are handed out: the input
/// ports wired to the output port, each once, in no fixed order.
#[verifier::external_body]
pub(crate) fn snarl_out_pin(snarl: &Snarl<Node>, pin: OutPort) -> (remotes: Vec<InPort>)
    ensures
        remotes@.no_duplicates(),
        forall|to: InPort| remotes@.contains(to) <==> snarl_wires(*snarl).contains(
            (Wire { from: pin, to }),
        ),
{
    snarl.out_pin(OutPinId { node: NodeId(pin.node), output: pin.output }).remotes.iter().map(
        |to| InPort { node: to.node.0, input: to.input },
    ).collect()
}

} // verus!
