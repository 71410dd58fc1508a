//! Turning a selection of nodes into a nested subsystem.

use vstd::prelude::*;
use std::collections::HashMap;
use egui::Pos2;
use egui_snarl::Snarl;
use crate::boundary::{
    add_stand_ins, connect_all, drain_wires, drains, entries, entry_wires, exit_wires, exits,
    expose_inputs, expose_outputs, feed_wires, feeds, input_names, moved_ends, moved_starts,
    output_names, renamed, renamed_ends, renamed_starts, renamed_wires, renaming, stand_in,
    wire_ends, wire_starts,
};
use crate::graph::{
    has_input, has_output, input_before, input_name, is_well_formed, lemma_nodes_of_placed,
    nodes_of, open_input, open_output, output_before, output_name, placed, unconnected_inputs,
    unconnected_outputs, valid_graph, well_formed, wire_in_range,
};
use crate::node::{Input, Node, NodeView, Output, Port, PortKind};
use crate::select::{lemma_select, on_side, select_set, wires_where};
use crate::snarl::{
    decimal, point_at, snarl_insert_node, snarl_new, snarl_node_position, snarl_nodes,
    snarl_remove_node, snarl_wire_list, snarl_wires,
};
use crate::laws::{lemma_inner_well_formed, lemma_outer_well_formed};
use crate::subsystem::Subsystem;
use crate::wire::{InPort, OutPort, Wire};

verus! {

broadcast use {vstd::seq_lib::group_seq_properties, vstd::std_specs::hash::group_hash_axioms};

/// The selected nodes that the graph had are found again under new
/// identifiers, one for each, with what they held and where they lay.
pub open spec fn rehomed(
    before: Map<usize, (NodeView, Pos2)>,
    chosen: Set<usize>,
    moved: Map<usize, usize>,
    inner: Map<usize, (NodeView, Pos2)>,
) -> bool {
    &&& moved.dom() =~= chosen.intersect(before.dom())
    &&& moved.is_injective()
    &&& forall|id: usize|
        moved.dom().contains(id) ==> inner.dom().contains(#[trigger] moved[id]) && inner[moved[id]]
            == before[id]
}

/// The input ports inside a subsystem that its sources feed: first those at
/// which a severed wire ended, then those that carried no wire.
pub open spec fn fed_ports(
    entering: Seq<Wire>,
    moved: Map<usize, usize>,
    open_inputs: Seq<InPort>,
) -> Seq<InPort> {
    moved_ends(entering, moved) + open_inputs
}

/// The output ports inside a subsystem that its sinks drain: first those at
/// which a severed wire started, then those that carried no wire.
pub open spec fn drained_ports(
    leaving: Seq<Wire>,
    moved: Map<usize, usize>,
    open_outputs: Seq<OutPort>,
) -> Seq<OutPort> {
    moved_starts(leaving, moved) + open_outputs
}

/// The source of index `k`, of which the first `severed` stand for a severed
/// wire and the others for an input port that carried none: what it holds
/// and where it lies.
pub open spec fn source_item(k: int, severed: int, port: Seq<char>) -> (NodeView, Pos2) {
    if k < severed {
        (stand_in("Ext"@ + decimal((k + 1) as nat), port, true), point_at(0, 50 * k))
    } else {
        (
            stand_in("ExtUC"@ + decimal((k - severed + 1) as nat), port, true),
            point_at(0, -150 * (k - severed)),
        )
    }
}

/// The sink of index `k`, of which the first `severed` stand for a severed
/// wire and the others for an output port that carried none: what it holds
/// and where it lies.
pub open spec fn sink_item(k: int, severed: int, port: Seq<char>) -> (NodeView, Pos2) {
    if k < severed {
        (stand_in("Ext"@ + decimal((k + 1) as nat), port, false), point_at(100, 50 * k))
    } else {
        (
            stand_in("ExtOutUC"@ + decimal((k - severed + 1) as nat), port, false),
            point_at(300, -150 * (k - severed)),
        )
    }
}

/// The wires inside a subsystem: the wires that ran between selected nodes,
/// renamed; one from each source to the port it feeds; one from each drained
/// port to its sink.
pub open spec fn inner_wires(
    wires: Set<Wire>,
    chosen: Set<usize>,
    moved: Map<usize, usize>,
    sources: Seq<usize>,
    fed: Seq<InPort>,
    drained: Seq<OutPort>,
    sinks: Seq<usize>,
) -> Set<Wire> {
    select_set(wires, chosen, true, true).map(renaming(moved)).union(
        feeds(sources, fed).to_set(),
    ).union(drains(drained, sinks).to_set())
}

/// What a subsystem holds that was made of the selected nodes of a graph:
/// the selected nodes under new identifiers, one source for each fed port
/// and one sink for each drained port, all under different identifiers, and
/// the wires between them.
pub open spec fn inner_is(
    before: Map<usize, (NodeView, Pos2)>,
    wires: Set<Wire>,
    chosen: Set<usize>,
    entering: Seq<Wire>,
    leaving: Seq<Wire>,
    moved: Map<usize, usize>,
    sources: Seq<usize>,
    sinks: Seq<usize>,
    open_inputs: Seq<InPort>,
    open_outputs: Seq<OutPort>,
    inner: Map<usize, (NodeView, Pos2)>,
    inner_set: Set<Wire>,
) -> bool {
    let fed = fed_ports(entering, moved, open_inputs);
    let drained = drained_ports(leaving, moved, open_outputs);
    &&& rehomed(before, chosen, moved, inner)
    &&& sources.len() == fed.len()
    &&& sinks.len() == drained.len()
    &&& sources.no_duplicates()
    &&& sinks.no_duplicates()
    &&& forall|i: int, j: int|
        0 <= i < sources.len() && 0 <= j < sinks.len() ==> #[trigger] sources[i] != #[trigger] sinks[j]
    &&& forall|id: usize, k: int|
        moved.dom().contains(id) && 0 <= k < sources.len() ==> #[trigger] moved[id]
            != #[trigger] sources[k]
    &&& forall|id: usize, k: int|
        moved.dom().contains(id) && 0 <= k < sinks.len() ==> #[trigger] moved[id]
            != #[trigger] sinks[k]
    &&& inner.dom() =~= moved.values().union(sources.to_set()).union(sinks.to_set())
    &&& forall|k: int|
        0 <= k < sources.len() ==> inner[#[trigger] sources[k]] == source_item(
            k,
            entering.len() as int,
            input_name(inner, fed[k]),
        )
    &&& forall|k: int|
        0 <= k < sinks.len() ==> inner[#[trigger] sinks[k]] == sink_item(
            k,
            leaving.len() as int,
            output_name(inner, drained[k]),
        )
    &&& inner_set =~= inner_wires(wires, chosen, moved, sources, fed, drained, sinks)
}

/// The list holds, by node and then by index, the input ports of the moved
/// nodes that carried no wire in the graph they came from, each under its
/// node's new identifier.
pub open spec fn open_inputs_are(
    nodes: Map<usize, NodeView>,
    wires: Set<Wire>,
    moved: Map<usize, usize>,
    open: Seq<InPort>,
) -> bool {
    &&& forall|i: int, j: int| 0 <= i < j < open.len() ==> input_before(open[i], open[j])
    &&& forall|k: int| 0 <= k < open.len() ==> moved.values().contains((#[trigger] open[k]).node)
    &&& forall|id: usize, input: usize|
        #![trigger open.contains(InPort { node: moved[id], input })]
        #![trigger open_input(nodes, wires, InPort { node: id, input })]
        moved.dom().contains(id) ==> (open.contains(InPort { node: moved[id], input })
            <==> open_input(nodes, wires, InPort { node: id, input }))
}

/// The list holds, by node and then by index, the output ports of the moved
/// nodes that carried no wire in the graph they came from, each under its
/// node's new identifier.
pub open spec fn open_outputs_are(
    nodes: Map<usize, NodeView>,
    wires: Set<Wire>,
    moved: Map<usize, usize>,
    open: Seq<OutPort>,
) -> bool {
    &&& forall|i: int, j: int| 0 <= i < j < open.len() ==> output_before(open[i], open[j])
    &&& forall|k: int| 0 <= k < open.len() ==> moved.values().contains((#[trigger] open[k]).node)
    &&& forall|id: usize, output: usize|
        #![trigger open.contains(OutPort { node: moved[id], output })]
        #![trigger open_output(nodes, wires, OutPort { node: id, output })]
        moved.dom().contains(id) ==> (open.contains(OutPort { node: moved[id], output })
            <==> open_output(nodes, wires, OutPort { node: id, output }))
}

/// The node that stands for a subsystem one level up: it is named
/// "Subsystem", shows one input port of kind `Internal` for each fed port
/// and one such output port for each drained port, under the names of those
/// ports and in their order, and refers to the subsystem by its handle.
pub open spec fn collapsed(
    inner: Map<usize, (NodeView, Pos2)>,
    fed: Seq<InPort>,
    drained: Seq<OutPort>,
    handle: usize,
) -> NodeView {
    NodeView {
        name: "Subsystem"@,
        inputs: Seq::new(
            fed.len(),
            |k: int| Port { name: input_name(inner, fed[k]), kind: PortKind::Internal },
        ),
        outputs: Seq::new(
            drained.len(),
            |k: int| Port { name: output_name(inner, drained[k]), kind: PortKind::Internal },
        ),
        subsystem: Some(handle),
    }
}

/// The wires of the outer graph after the selection has left it: the wires
/// that did not touch the selection; for each wire that entered it, one from
/// where that wire started to the collapsed node's input of the same index;
/// for each wire that left it, one from the collapsed node's output of the
/// same index to where that wire ended.
pub open spec fn outer_wires(
    wires: Set<Wire>,
    chosen: Set<usize>,
    entering: Seq<Wire>,
    leaving: Seq<Wire>,
    node: usize,
) -> Set<Wire> {
    select_set(wires, chosen, false, false).union(entries(entering, node).to_set()).union(
        exits(leaving, node).to_set(),
    )
}

/// What the outer graph holds after the selection has left it: the nodes
/// that were not selected, where they were; the collapsed node at the given
/// position, under an identifier that none of them has; and the wires above.
pub open spec fn outer_is(
    before: Map<usize, (NodeView, Pos2)>,
    wires: Set<Wire>,
    chosen: Set<usize>,
    entering: Seq<Wire>,
    leaving: Seq<Wire>,
    node: usize,
    view: NodeView,
    pos: Pos2,
    after: Map<usize, (NodeView, Pos2)>,
    after_set: Set<Wire>,
) -> bool {
    &&& !before.remove_keys(chosen).dom().contains(node)
    &&& after =~= before.remove_keys(chosen).insert(node, (view, pos))
    &&& after_set =~= outer_wires(wires, chosen, entering, leaving, node)
}

/// What came of turning a selection into a subsystem.
pub struct Extraction {
    /// The collapsed node that stands for the subsystem in the outer graph.
    pub node: usize,
    /// Under which identifier each selected node went into the subsystem.
    pub moved: HashMap<usize, usize>,
    /// The wires that entered the selection, in the order of the collapsed
    /// node's first inputs.
    pub inputs: Vec<Wire>,
    /// The wires that left the selection, in the order of the collapsed
    /// node's first outputs.
    pub outputs: Vec<Wire>,
    /// The input ports inside the subsystem that carried no wire, in the
    /// order of the collapsed node's other inputs.
    pub open_inputs: Vec<InPort>,
    /// The output ports inside the subsystem that carried no wire, in the
    /// order of the collapsed node's other outputs.
    pub open_outputs: Vec<OutPort>,
    /// The stand-in nodes inside the subsystem from which its fed ports
    /// get their wires, in the order of the collapsed node's inputs.
    pub sources: Vec<usize>,
    /// The stand-in nodes inside the subsystem to which its drained ports
    /// send their wires, in the order of the collapsed node's outputs.
    pub sinks: Vec<usize>,
}

impl Extraction {
    /// The input ports inside the subsystem that its sources feed.
    pub open spec fn fed(&self) -> Seq<InPort> {
        fed_ports(self.inputs@, self.moved@, self.open_inputs@)
    }

    /// The output ports inside the subsystem that its sinks drain.
    pub open spec fn drained(&self) -> Seq<OutPort> {
        drained_ports(self.outputs@, self.moved@, self.open_outputs@)
    }

    /// This is what comes of turning the nodes `chosen` of the graph
    /// `before` into a subsystem with the given handle, with the collapsed
    /// node at `pos`: `after` is the graph that is left, and `inner` the
    /// graph of the subsystem.
    pub open spec fn describes(
        &self,
        before: Snarl<Node>,
        chosen: Set<usize>,
        pos: Pos2,
        handle: usize,
        after: Snarl<Node>,
        inner: Snarl<Node>,
    ) -> bool {
        &&& self.inputs@.no_duplicates()
        &&& self.inputs@.to_set() == select_set(snarl_wires(before), chosen, false, true)
        &&& self.outputs@.no_duplicates()
        &&& self.outputs@.to_set() == select_set(snarl_wires(before), chosen, true, false)
        &&& inner_is(
            placed(before),
            snarl_wires(before),
            chosen,
            self.inputs@,
            self.outputs@,
            self.moved@,
            self.sources@,
            self.sinks@,
            self.open_inputs@,
            self.open_outputs@,
            placed(inner),
            snarl_wires(inner),
        )
        &&& open_inputs_are(snarl_nodes(before), snarl_wires(before), self.moved@, self.open_inputs@)
        &&& open_outputs_are(
            snarl_nodes(before),
            snarl_wires(before),
            self.moved@,
            self.open_outputs@,
        )
        &&& outer_is(
            placed(before),
            snarl_wires(before),
            chosen,
            self.inputs@,
            self.outputs@,
            self.node,
            collapsed(placed(inner), self.fed(), self.drained(), handle),
            pos,
            placed(after),
            snarl_wires(after),
        )
    }
}

/// Moves every selected node that the outer graph has into the inner graph,
/// and records under which identifier it went.
fn rehome(outer: &mut Snarl<Node>, inner: &mut Snarl<Node>, selected: &Vec<usize>) -> (moved:
    HashMap<usize, usize>)
    requires
        valid_graph(snarl_nodes(*old(outer)), snarl_wires(*old(outer))),
    ensures
        rehomed(placed(*old(outer)), selected@.to_set(), moved@, placed(*final(inner))),
        forall|id: usize|
            moved@.dom().contains(id) ==> !placed(*old(inner)).dom().contains(#[trigger] moved@[id]),
        placed(*final(inner)).dom() =~= placed(*old(inner)).dom().union(moved@.values()),
        forall|id: usize|
            placed(*old(inner)).dom().contains(id) ==> #[trigger] placed(*final(inner))[id]
                == placed(*old(inner))[id],
        snarl_wires(*final(inner)) == snarl_wires(*old(inner)),
        placed(*final(outer)) =~= placed(*old(outer)).remove_keys(selected@.to_set()),
        snarl_wires(*final(outer)) =~= select_set(
            snarl_wires(*old(outer)),
            selected@.to_set(),
            false,
            false,
        ),
{
    let ghost before = placed(*outer);
    let ghost wires0 = snarl_wires(*outer);
    let ghost nodes0 = snarl_nodes(*outer);
    let ghost inner0 = placed(*inner);
    let mut moved: HashMap<usize, usize> = HashMap::new();
    let mut i: usize = 0;
    while i < selected.len()
        invariant
            i <= selected.len(),
            valid_graph(nodes0, wires0),
            before.dom() == nodes0.dom(),
            rehomed(before, selected@.take(i as int).to_set(), moved@, placed(*inner)),
            forall|id: usize|
                moved@.dom().contains(id) ==> !inner0.dom().contains(#[trigger] moved@[id]),
            placed(*inner).dom() =~= inner0.dom().union(moved@.values()),
            forall|id: usize|
                inner0.dom().contains(id) ==> #[trigger] placed(*inner)[id] == inner0[id],
            snarl_wires(*inner) == snarl_wires(*old(inner)),
            placed(*outer) =~= before.remove_keys(selected@.take(i as int).to_set()),
            snarl_wires(*outer) =~= select_set(
                wires0,
                selected@.take(i as int).to_set(),
                false,
                false,
            ),
        decreases selected.len() - i,
    {
        let id = selected[i];
        let ghost outer_prev = placed(*outer);
        let ghost inner_prev = placed(*inner);
        let ghost moved_prev = moved@;
        match snarl_node_position(outer, id) {
            Some(pos) => {
                let node = snarl_remove_node(outer, id);
                let new = snarl_insert_node(inner, pos, node);
                moved.insert(id, new);
                proof {
                    assert(placed(*inner) =~= inner_prev.insert(new, (node@, pos)));
                    assert(!inner_prev.dom().contains(new));
                    assert(outer_prev.dom().contains(id));
                    assert(outer_prev[id] == (node@, pos));
                    assert(placed(*outer) =~= outer_prev.remove(id));
                    assert(moved@.values() =~= moved_prev.values().insert(new)) by {
                        assert forall|v: usize| moved@.values().contains(v) <==> moved_prev.values().insert(
                            new,
                        ).contains(v) by {
                            if moved@.values().contains(v) {
                                let a = choose|a: usize| moved@.dom().contains(a) && moved@[a] == v;
                                if a != id {
                                    assert(moved_prev.dom().contains(a) && moved_prev[a] == v);
                                }
                            }
                            if moved_prev.values().contains(v) {
                                let a = choose|a: usize|
                                    moved_prev.dom().contains(a) && moved_prev[a] == v;
                                assert(moved@.dom().contains(a) && moved@[a] == v);
                            }
                            if v == new {
                                assert(moved@.dom().contains(id) && moved@[id] == v);
                            }
                        }
                    }
                }
            },
            None => {
                proof {
                    assert(!outer_prev.dom().contains(id));
                }
            },
        }
        i += 1;
    }
    moved
}

/// Makes the subsystem's graph of the selection, before any port without a
/// wire is looked for: stand-in nodes for the severed wires, the selected
/// nodes, and the wires between all of them. The selected nodes leave the
/// outer graph, and every wire that touched them leaves with them.
fn build_inner(
    outer: &mut Snarl<Node>,
    selected: &Vec<usize>,
    internal: &Vec<Wire>,
    entering: &Vec<Wire>,
    leaving: &Vec<Wire>,
) -> (built: (Snarl<Node>, HashMap<usize, usize>, Vec<usize>, Vec<usize>))
    requires
        valid_graph(snarl_nodes(*old(outer)), snarl_wires(*old(outer))),
        internal@.to_set() == select_set(snarl_wires(*old(outer)), selected@.to_set(), true, true),
        entering@.to_set() == select_set(snarl_wires(*old(outer)), selected@.to_set(), false, true),
        leaving@.to_set() == select_set(snarl_wires(*old(outer)), selected@.to_set(), true, false),
    ensures
        inner_is(
            placed(*old(outer)),
            snarl_wires(*old(outer)),
            selected@.to_set(),
            entering@,
            leaving@,
            built.1@,
            built.2@,
            built.3@,
            Seq::empty(),
            Seq::empty(),
            placed(built.0),
            snarl_wires(built.0),
        ),
        placed(*final(outer)) =~= placed(*old(outer)).remove_keys(selected@.to_set()),
        snarl_wires(*final(outer)) =~= select_set(
            snarl_wires(*old(outer)),
            selected@.to_set(),
            false,
            false,
        ),
{
    let ghost nodes0 = snarl_nodes(*outer);
    proof {
        assert forall|k: int| 0 <= k < entering.len() implies has_input(
            nodes0,
            (#[trigger] entering[k]).to,
        ) by {
            assert(entering@.to_set().contains(entering[k]));
        }
        assert forall|k: int| 0 <= k < leaving.len() implies has_output(
            nodes0,
            (#[trigger] leaving[k]).from,
        ) by {
            assert(leaving@.to_set().contains(leaving[k]));
        }
    }
    let ends = wire_ends(entering);
    let starts = wire_starts(leaving);
    let in_names = input_names(outer, &ends);
    let out_names = output_names(outer, &starts);
    let mut inner = snarl_new();
    let sources = add_stand_ins(&mut inner, &in_names, true, "Ext", 0, 50);
    let sinks = add_stand_ins(&mut inner, &out_names, false, "Ext", 100, 50);
    let moved = rehome(outer, &mut inner, selected);
    proof {
        assert forall|k: int| 0 <= k < internal.len() implies moved@.dom().contains(
            (#[trigger] internal[k]).from.node,
        ) && moved@.dom().contains(internal[k].to.node) by {
            assert(internal@.to_set().contains(internal[k]));
        }
        assert forall|k: int| 0 <= k < entering.len() implies moved@.dom().contains(
            (#[trigger] entering[k]).to.node,
        ) by {
            assert(entering@.to_set().contains(entering[k]));
        }
        assert forall|k: int| 0 <= k < leaving.len() implies moved@.dom().contains(
            (#[trigger] leaving[k]).from.node,
        ) by {
            assert(leaving@.to_set().contains(leaving[k]));
        }
    }
    let inside = renamed_wires(internal, &moved);
    let fed = renamed_ends(entering, &moved);
    let drained = renamed_starts(leaving, &moved);
    let feeding = feed_wires(&sources, &fed);
    let draining = drain_wires(&drained, &sinks);
    connect_all(&mut inner, &inside);
    connect_all(&mut inner, &feeding);
    connect_all(&mut inner, &draining);
    proof {
        internal@.lemma_to_set_map_commutes(renaming(moved@));
    }
    (inner, moved, sources, sinks)
}

/// An input port without a wire inside a subsystem, before any such port is
/// fed, is a port of a moved node.
proof fn lemma_open_input_is_moved(
    before: Map<usize, (NodeView, Pos2)>,
    wires: Set<Wire>,
    chosen: Set<usize>,
    entering: Seq<Wire>,
    leaving: Seq<Wire>,
    moved: Map<usize, usize>,
    sources: Seq<usize>,
    sinks: Seq<usize>,
    open_outputs: Seq<OutPort>,
    inner: Map<usize, (NodeView, Pos2)>,
    inner_set: Set<Wire>,
    pin: InPort,
)
    requires
        inner_is(
            before,
            wires,
            chosen,
            entering,
            leaving,
            moved,
            sources,
            sinks,
            Seq::empty(),
            open_outputs,
            inner,
            inner_set,
        ),
        open_input(nodes_of(inner), inner_set, pin),
    ensures
        moved.values().contains(pin.node),
{
    let drained = drained_ports(leaving, moved, open_outputs);
    if sinks.to_set().contains(pin.node) {
        let k = choose|k: int| 0 <= k < sinks.len() && sinks[k] == pin.node;
        let w = drains(drained, sinks)[k];
        assert(inner_set.contains(w));
    }
}

/// An input port of a moved node carries no wire inside the subsystem,
/// before any such port is fed, exactly if it carried none in the graph
/// that the node came from.
proof fn lemma_open_input_was_open(
    before: Map<usize, (NodeView, Pos2)>,
    wires: Set<Wire>,
    chosen: Set<usize>,
    entering: Seq<Wire>,
    leaving: Seq<Wire>,
    moved: Map<usize, usize>,
    sources: Seq<usize>,
    sinks: Seq<usize>,
    open_outputs: Seq<OutPort>,
    inner: Map<usize, (NodeView, Pos2)>,
    inner_set: Set<Wire>,
    id: usize,
    input: usize,
)
    requires
        valid_graph(nodes_of(before), wires),
        entering.to_set() == select_set(wires, chosen, false, true),
        inner_is(
            before,
            wires,
            chosen,
            entering,
            leaving,
            moved,
            sources,
            sinks,
            Seq::empty(),
            open_outputs,
            inner,
            inner_set,
        ),
        moved.dom().contains(id),
    ensures
        open_input(nodes_of(inner), inner_set, InPort { node: moved[id], input }) <==> open_input(
            nodes_of(before),
            wires,
            InPort { node: id, input },
        ),
{
    let fed = fed_ports(entering, moved, Seq::empty());
    let new = InPort { node: moved[id], input };
    let old = InPort { node: id, input };
    if open_input(nodes_of(before), wires, old) && !open_input(nodes_of(inner), inner_set, new) {
        let from = choose|from: OutPort| inner_set.contains(Wire { from, to: new });
        let v = Wire { from, to: new };
        if feeds(sources, fed).to_set().contains(v) {
            let k = choose|k: int| 0 <= k < fed.len() && feeds(sources, fed)[k] == v;
            let w = entering[k];
            assert(entering.to_set().contains(w));
        }
    }
    if open_input(nodes_of(inner), inner_set, new) && !open_input(nodes_of(before), wires, old) {
        let from = choose|from: OutPort| wires.contains(Wire { from, to: old });
        let w = Wire { from, to: old };
        if chosen.contains(from.node) {
            assert(select_set(wires, chosen, true, true).contains(w));
            let v = renaming(moved)(w);
            assert(inner_set.contains(v));
        } else {
            assert(select_set(wires, chosen, false, true).contains(w));
            let k = choose|k: int| 0 <= k < entering.len() && entering[k] == w;
            let v = feeds(sources, fed)[k];
            assert(inner_set.contains(v));
        }
    }
}

/// Gives every input port that carries no wire inside the subsystem a
/// source of its own, and returns those ports.
fn feed_open_inputs(
    inner: &mut Snarl<Node>,
    sources: &mut Vec<usize>,
    Ghost(before): Ghost<Map<usize, (NodeView, Pos2)>>,
    Ghost(wires): Ghost<Set<Wire>>,
    Ghost(chosen): Ghost<Set<usize>>,
    entering: &Vec<Wire>,
    leaving: &Vec<Wire>,
    moved: &HashMap<usize, usize>,
    sinks: &Vec<usize>,
) -> (open: Vec<InPort>)
    requires
        valid_graph(nodes_of(before), wires),
        entering@.to_set() == select_set(wires, chosen, false, true),
        leaving@.to_set() == select_set(wires, chosen, true, false),
        inner_is(
            before,
            wires,
            chosen,
            entering@,
            leaving@,
            moved@,
            old(sources)@,
            sinks@,
            Seq::empty(),
            Seq::empty(),
            placed(*old(inner)),
            snarl_wires(*old(inner)),
        ),
    ensures
        inner_is(
            before,
            wires,
            chosen,
            entering@,
            leaving@,
            moved@,
            final(sources)@,
            sinks@,
            open@,
            Seq::empty(),
            placed(*final(inner)),
            snarl_wires(*final(inner)),
        ),
        open_inputs_are(nodes_of(before), wires, moved@, open@),
{
    let ghost was = placed(*inner);
    let ghost was_set = snarl_wires(*inner);
    let ghost first = sources@;
    let ghost fed = fed_ports(entering@, moved@, Seq::empty());
    let ghost drained = drained_ports(leaving@, moved@, Seq::empty());
    let open = unconnected_inputs(inner);
    proof {
        assert forall|k: int| 0 <= k < open.len() implies has_input(
            snarl_nodes(*inner),
            #[trigger] open[k],
        ) && moved@.values().contains(open[k].node) by {
            assert(open@.contains(open[k]));
            lemma_open_input_is_moved(
                before,
                wires,
                chosen,
                entering@,
                leaving@,
                moved@,
                first,
                sinks@,
                Seq::empty(),
                was,
                was_set,
                open[k],
            );
        }
        assert forall|id: usize, input: usize| moved@.dom().contains(id) implies (open@.contains(
            InPort { node: moved@[id], input },
        ) <==> open_input(nodes_of(before), wires, InPort { node: id, input })) by {
            lemma_open_input_was_open(
                before,
                wires,
                chosen,
                entering@,
                leaving@,
                moved@,
                first,
                sinks@,
                Seq::empty(),
                was,
                was_set,
                id,
                input,
            );
        }
    }
    let names = input_names(inner, &open);
    let mut more = add_stand_ins(inner, &names, true, "ExtUC", 0, -150);
    let ghost added = more@;
    let feeding = feed_wires(&more, &open);
    connect_all(inner, &feeding);
    sources.append(&mut more);
    proof {
        let all = sources@;
        let fed2 = fed_ports(entering@, moved@, open@);
        assert forall|k: int| 0 <= k < fed.len() implies was.dom().contains(
            (#[trigger] fed[k]).node,
        ) by {
            assert(entering@.to_set().contains(entering[k]));
        }
        assert forall|k: int| 0 <= k < drained.len() implies was.dom().contains(
            (#[trigger] drained[k]).node,
        ) by {
            assert(leaving@.to_set().contains(leaving[k]));
        }
        assert(feeds(all, fed2) =~= feeds(first, fed) + feeds(added, open@));
    }
    open
}

/// An output port without a wire inside a subsystem, before any such port
/// is drained, is a port of a moved node.
proof fn lemma_open_output_is_moved(
    before: Map<usize, (NodeView, Pos2)>,
    wires: Set<Wire>,
    chosen: Set<usize>,
    entering: Seq<Wire>,
    leaving: Seq<Wire>,
    moved: Map<usize, usize>,
    sources: Seq<usize>,
    sinks: Seq<usize>,
    open_inputs: Seq<InPort>,
    inner: Map<usize, (NodeView, Pos2)>,
    inner_set: Set<Wire>,
    pin: OutPort,
)
    requires
        inner_is(
            before,
            wires,
            chosen,
            entering,
            leaving,
            moved,
            sources,
            sinks,
            open_inputs,
            Seq::empty(),
            inner,
            inner_set,
        ),
        open_output(nodes_of(inner), inner_set, pin),
    ensures
        moved.values().contains(pin.node),
{
    let fed = fed_ports(entering, moved, open_inputs);
    if sources.to_set().contains(pin.node) {
        let k = choose|k: int| 0 <= k < sources.len() && sources[k] == pin.node;
        let w = feeds(sources, fed)[k];
        assert(inner_set.contains(w));
    }
}

/// An output port of a moved node carries no wire inside the subsystem,
/// before any such port is drained, exactly if it carried none in the graph
/// that the node came from.
proof fn lemma_open_output_was_open(
    before: Map<usize, (NodeView, Pos2)>,
    wires: Set<Wire>,
    chosen: Set<usize>,
    entering: Seq<Wire>,
    leaving: Seq<Wire>,
    moved: Map<usize, usize>,
    sources: Seq<usize>,
    sinks: Seq<usize>,
    open_inputs: Seq<InPort>,
    inner: Map<usize, (NodeView, Pos2)>,
    inner_set: Set<Wire>,
    id: usize,
    output: usize,
)
    requires
        valid_graph(nodes_of(before), wires),
        leaving.to_set() == select_set(wires, chosen, true, false),
        inner_is(
            before,
            wires,
            chosen,
            entering,
            leaving,
            moved,
            sources,
            sinks,
            open_inputs,
            Seq::empty(),
            inner,
            inner_set,
        ),
        moved.dom().contains(id),
    ensures
        open_output(nodes_of(inner), inner_set, OutPort { node: moved[id], output })
            <==> open_output(nodes_of(before), wires, OutPort { node: id, output }),
{
    let drained = drained_ports(leaving, moved, Seq::empty());
    let new = OutPort { node: moved[id], output };
    let old = OutPort { node: id, output };
    if open_output(nodes_of(before), wires, old) && !open_output(nodes_of(inner), inner_set, new) {
        let to = choose|to: InPort| inner_set.contains(Wire { from: new, to });
        let v = Wire { from: new, to };
        if drains(drained, sinks).to_set().contains(v) {
            let k = choose|k: int| 0 <= k < drained.len() && drains(drained, sinks)[k] == v;
            let w = leaving[k];
            assert(leaving.to_set().contains(w));
        }
    }
    if open_output(nodes_of(inner), inner_set, new) && !open_output(nodes_of(before), wires, old) {
        let to = choose|to: InPort| wires.contains(Wire { from: old, to });
        let w = Wire { from: old, to };
        if chosen.contains(to.node) {
            assert(select_set(wires, chosen, true, true).contains(w));
            let v = renaming(moved)(w);
            assert(inner_set.contains(v));
        } else {
            assert(select_set(wires, chosen, true, false).contains(w));
            let k = choose|k: int| 0 <= k < leaving.len() && leaving[k] == w;
            let v = drains(drained, sinks)[k];
            assert(inner_set.contains(v));
        }
    }
}

/// Gives every output port that carries no wire inside the subsystem a sink
/// of its own, and returns those ports.
fn drain_open_outputs(
    inner: &mut Snarl<Node>,
    sinks: &mut Vec<usize>,
    Ghost(before): Ghost<Map<usize, (NodeView, Pos2)>>,
    Ghost(wires): Ghost<Set<Wire>>,
    Ghost(chosen): Ghost<Set<usize>>,
    entering: &Vec<Wire>,
    leaving: &Vec<Wire>,
    moved: &HashMap<usize, usize>,
    sources: &Vec<usize>,
    Ghost(open_inputs): Ghost<Seq<InPort>>,
) -> (open: Vec<OutPort>)
    requires
        valid_graph(nodes_of(before), wires),
        entering@.to_set() == select_set(wires, chosen, false, true),
        leaving@.to_set() == select_set(wires, chosen, true, false),
        forall|k: int|
            0 <= k < open_inputs.len() ==> moved@.values().contains((#[trigger] open_inputs[k]).node),
        inner_is(
            before,
            wires,
            chosen,
            entering@,
            leaving@,
            moved@,
            sources@,
            old(sinks)@,
            open_inputs,
            Seq::empty(),
            placed(*old(inner)),
            snarl_wires(*old(inner)),
        ),
    ensures
        inner_is(
            before,
            wires,
            chosen,
            entering@,
            leaving@,
            moved@,
            sources@,
            final(sinks)@,
            open_inputs,
            open@,
            placed(*final(inner)),
            snarl_wires(*final(inner)),
        ),
        open_outputs_are(nodes_of(before), wires, moved@, open@),
{
    let ghost was = placed(*inner);
    let ghost was_set = snarl_wires(*inner);
    let ghost first = sinks@;
    let ghost fed = fed_ports(entering@, moved@, open_inputs);
    let ghost drained = drained_ports(leaving@, moved@, Seq::empty());
    let open = unconnected_outputs(inner);
    proof {
        assert forall|k: int| 0 <= k < open.len() implies has_output(
            snarl_nodes(*inner),
            #[trigger] open[k],
        ) && moved@.values().contains(open[k].node) by {
            assert(open@.contains(open[k]));
            lemma_open_output_is_moved(
                before,
                wires,
                chosen,
                entering@,
                leaving@,
                moved@,
                sources@,
                first,
                open_inputs,
                was,
                was_set,
                open[k],
            );
        }
        assert forall|id: usize, output: usize| moved@.dom().contains(id) implies (open@.contains(
            OutPort { node: moved@[id], output },
        ) <==> open_output(nodes_of(before), wires, OutPort { node: id, output })) by {
            lemma_open_output_was_open(
                before,
                wires,
                chosen,
                entering@,
                leaving@,
                moved@,
                sources@,
                first,
                open_inputs,
                was,
                was_set,
                id,
                output,
            );
        }
    }
    let names = output_names(inner, &open);
    let mut more = add_stand_ins(inner, &names, false, "ExtOutUC", 300, -150);
    let ghost added = more@;
    let draining = drain_wires(&open, &more);
    connect_all(inner, &draining);
    sinks.append(&mut more);
    proof {
        let all = sinks@;
        let drained2 = drained_ports(leaving@, moved@, open@);
        assert forall|k: int| 0 <= k < fed.len() implies was.dom().contains(
            (#[trigger] fed[k]).node,
        ) by {
            if k < entering.len() {
                assert(entering@.to_set().contains(entering[k]));
            }
        }
        assert forall|k: int| 0 <= k < drained.len() implies was.dom().contains(
            (#[trigger] drained[k]).node,
        ) by {
            assert(leaving@.to_set().contains(leaving[k]));
        }
        assert(drains(drained2, all) =~= drains(drained, first) + drains(open@, added));
    }
    open
}

/// Makes the collapsed node for a subsystem's graph.
fn collapsed_node(
    inner: &Snarl<Node>,
    fed: &Vec<InPort>,
    open_inputs: &Vec<InPort>,
    drained: &Vec<OutPort>,
    open_outputs: &Vec<OutPort>,
    handle: usize,
) -> (node: Node)
    requires
        forall|k: int| 0 <= k < fed.len() ==> has_input(snarl_nodes(*inner), #[trigger] fed[k]),
        forall|k: int|
            0 <= k < open_inputs.len() ==> has_input(snarl_nodes(*inner), #[trigger] open_inputs[k]),
        forall|k: int|
            0 <= k < drained.len() ==> has_output(snarl_nodes(*inner), #[trigger] drained[k]),
        forall|k: int|
            0 <= k < open_outputs.len() ==> has_output(
                snarl_nodes(*inner),
                #[trigger] open_outputs[k],
            ),
    ensures
        node@ == collapsed(placed(*inner), fed@ + open_inputs@, drained@ + open_outputs@, handle),
{
    let first_in = input_names(inner, fed);
    let more_in = input_names(inner, open_inputs);
    let first_out = output_names(inner, drained);
    let more_out = output_names(inner, open_outputs);
    let mut inputs: Vec<Input> = Vec::new();
    expose_inputs(&mut inputs, &first_in);
    expose_inputs(&mut inputs, &more_in);
    let mut outputs: Vec<Output> = Vec::new();
    expose_outputs(&mut outputs, &first_out);
    expose_outputs(&mut outputs, &more_out);
    let node = Node { name: "Subsystem".to_owned(), inputs, outputs, subsystem: Some(handle) };
    proof {
        let want = collapsed(placed(*inner), fed@ + open_inputs@, drained@ + open_outputs@, handle);
        assert(node@.inputs =~= want.inputs) by {
            assert forall|k: int| 0 <= k < want.inputs.len() implies node@.inputs[k]
                == want.inputs[k] by {
                if k >= fed.len() {
                    assert(node.inputs[fed.len() + (k - fed.len())]@ == want.inputs[k]);
                } else {
                    assert(node.inputs[0 + k]@ == want.inputs[k]);
                }
            }
        }
        assert(node@.outputs =~= want.outputs) by {
            assert forall|k: int| 0 <= k < want.outputs.len() implies node@.outputs[k]
                == want.outputs[k] by {
                if k >= drained.len() {
                    assert(node.outputs[drained.len() + (k - drained.len())]@ == want.outputs[k]);
                } else {
                    assert(node.outputs[0 + k]@ == want.outputs[k]);
                }
            }
        }
    }
    node
}

/// Turns the selected nodes of a well-formed graph into a subsystem.
fn extract(outer: &mut Snarl<Node>, selected: &Vec<usize>, pos: Pos2, handle: usize) -> (made: (
    Subsystem,
    Extraction,
))
    requires
        well_formed(*old(outer)),
    ensures
        made.1.describes(
            *old(outer),
            selected@.to_set(),
            pos,
            handle,
            *final(outer),
            made.0.snarl,
        ),
        well_formed(*final(outer)),
        well_formed(made.0.snarl),
{
    let ghost start = *outer;
    let ghost before = placed(*outer);
    let ghost nodes0 = snarl_nodes(*outer);
    let ghost wires0 = snarl_wires(*outer);
    let ghost chosen = selected@.to_set();
    let all = snarl_wire_list(outer);
    let internal = wires_where(&all, selected, true, true);
    let entering = wires_where(&all, selected, false, true);
    let leaving = wires_where(&all, selected, true, false);
    proof {
        lemma_select(all@, chosen, true, true);
        lemma_select(all@, chosen, false, true);
        lemma_select(all@, chosen, true, false);
        lemma_nodes_of_placed(*outer);
    }
    let (mut inner, moved, mut sources, mut sinks) = build_inner(
        outer,
        selected,
        &internal,
        &entering,
        &leaving,
    );
    let open_inputs = feed_open_inputs(
        &mut inner,
        &mut sources,
        Ghost(before),
        Ghost(wires0),
        Ghost(chosen),
        &entering,
        &leaving,
        &moved,
        &sinks,
    );
    let open_outputs = drain_open_outputs(
        &mut inner,
        &mut sinks,
        Ghost(before),
        Ghost(wires0),
        Ghost(chosen),
        &entering,
        &leaving,
        &moved,
        &sources,
        Ghost(open_inputs@),
    );
    proof {
        assert forall|k: int| 0 <= k < entering.len() implies moved@.dom().contains(
            (#[trigger] entering[k]).to.node,
        ) && !chosen.contains(entering[k].from.node) && wire_in_range(nodes0, entering[k]) by {
            assert(entering@.to_set().contains(entering[k]));
        }
        assert forall|k: int| 0 <= k < leaving.len() implies moved@.dom().contains(
            (#[trigger] leaving[k]).from.node,
        ) && !chosen.contains(leaving[k].to.node) && wire_in_range(nodes0, leaving[k]) by {
            assert(leaving@.to_set().contains(leaving[k]));
        }
    }
    let fed = renamed_ends(&entering, &moved);
    let drained = renamed_starts(&leaving, &moved);
    proof {
        lemma_listed_ports_exist(
            nodes0,
            wires0,
            moved@,
            open_inputs@,
            open_outputs@,
            before,
            placed(inner),
        );
    }
    let node = collapsed_node(&inner, &fed, &open_inputs, &drained, &open_outputs, handle);
    let ghost left = placed(*outer);
    let id = snarl_insert_node(outer, pos, node);
    proof {
        assert(placed(*outer) =~= left.insert(id, (node@, pos)));
    }
    let coming = entry_wires(&entering, id);
    let going = exit_wires(&leaving, id);
    connect_all(outer, &coming);
    connect_all(outer, &going);
    let e = Extraction {
        node: id,
        moved,
        inputs: entering,
        outputs: leaving,
        open_inputs,
        open_outputs,
        sources,
        sinks,
    };
    proof {
        lemma_outer_well_formed(start, chosen, pos, handle, *outer, inner, e);
        lemma_inner_well_formed(start, chosen, pos, handle, *outer, inner, e);
    }
    (Subsystem { snarl: inner }, e)
}

/// Turns the selected nodes of a graph into a subsystem, which is handed
/// back with an account of what was done. In the graph a collapsed node at
/// `pos` takes the selection's place; it refers to the subsystem by
/// `handle`. Selected identifiers that the graph does not have count for
/// nothing. An empty selection is refused, and so is a graph that is not
/// well formed: then nothing changes.
pub fn convert_to_subsystem(
    snarl: &mut Snarl<Node>,
    selected: &Vec<usize>,
    pos: Pos2,
    handle: usize,
) -> (made: Option<(Subsystem, Extraction)>)
    ensures
        made.is_some() == (selected.len() > 0 && well_formed(*old(snarl))),
        made.is_none() ==> *final(snarl) == *old(snarl),
        made.is_some() ==> made.unwrap().1.describes(
            *old(snarl),
            selected@.to_set(),
            pos,
            handle,
            *final(snarl),
            made.unwrap().0.snarl,
        ),
        made.is_some() ==> well_formed(*final(snarl)) && well_formed(made.unwrap().0.snarl),
{
    if selected.len() == 0 || !is_well_formed(snarl) {
        return None;
    }
    Some(extract(snarl, selected, pos, handle))
}

/// The listed open ports exist inside the subsystem.
proof fn lemma_listed_ports_exist(
    nodes: Map<usize, NodeView>,
    wires: Set<Wire>,
    moved: Map<usize, usize>,
    open_inputs: Seq<InPort>,
    open_outputs: Seq<OutPort>,
    before: Map<usize, (NodeView, Pos2)>,
    inner: Map<usize, (NodeView, Pos2)>,
)
    requires
        nodes == nodes_of(before),
        open_inputs_are(nodes, wires, moved, open_inputs),
        open_outputs_are(nodes, wires, moved, open_outputs),
        forall|id: usize|
            moved.dom().contains(id) ==> inner.dom().contains(#[trigger] moved[id]) && inner[moved[id]]
                == before[id] && before.dom().contains(id),
    ensures
        forall|k: int|
            0 <= k < open_inputs.len() ==> has_input(nodes_of(inner), #[trigger] open_inputs[k]),
        forall|k: int|
            0 <= k < open_outputs.len() ==> has_output(nodes_of(inner), #[trigger] open_outputs[k]),
{
    assert forall|k: int| 0 <= k < open_inputs.len() implies has_input(
        nodes_of(inner),
        #[trigger] open_inputs[k],
    ) by {
        let pin = open_inputs[k];
        let id = choose|id: usize| moved.dom().contains(id) && moved[id] == pin.node;
        assert(open_inputs.contains(InPort { node: moved[id], input: pin.input }));
    }
    assert forall|k: int| 0 <= k < open_outputs.len() implies has_output(
        nodes_of(inner),
        #[trigger] open_outputs[k],
    ) by {
        let pin = open_outputs[k];
        let id = choose|id: usize| moved.dom().contains(id) && moved[id] == pin.node;
        assert(open_outputs.contains(OutPort { node: moved[id], output: pin.output }));
    }
}

} // verus!
