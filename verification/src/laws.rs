//! What holds of every subsystem made of a selection.

use vstd::prelude::*;
use egui::Pos2;
use egui_snarl::Snarl;
use crate::boundary::{drains, entries, exits, feeds, renamed, renaming};
use crate::extract::{collapsed, outer_wires, Extraction};
use crate::graph::{
    has_input, has_output, input_before, input_name, lemma_nodes_of_placed, open_input,
    open_output, output_name, placed, valid_graph, well_formed, wire_in_range,
};
use crate::node::{Node, NodeView, Port, PortKind};
use crate::select::{on_side, select_set};
use crate::snarl::{snarl_nodes, snarl_wires};
use crate::wire::{InPort, OutPort, Wire};

verus! {

broadcast use {
    vstd::seq_lib::group_seq_properties,
    vstd::set::group_set_axioms,
    vstd::seq_lib::seq_to_set_is_finite,
};

/// The outer graph is well formed after a selection has left a well-formed
/// graph.
pub proof fn lemma_outer_well_formed(
    before: Snarl<Node>,
    chosen: Set<usize>,
    pos: Pos2,
    handle: usize,
    after: Snarl<Node>,
    inner: Snarl<Node>,
    e: Extraction,
)
    requires
        well_formed(before),
        e.describes(before, chosen, pos, handle, after, inner),
    ensures
        well_formed(after),
{
    let nodes0 = snarl_nodes(before);
    let wires0 = snarl_wires(before);
    let nodes1 = snarl_nodes(after);
    let wires1 = snarl_wires(after);
    let entering = e.inputs@;
    let leaving = e.outputs@;
    let r = e.node;
    let view = collapsed(placed(inner), e.fed(), e.drained(), handle);
    let untouched = select_set(wires0, chosen, false, false);
    lemma_nodes_of_placed(before);
    lemma_nodes_of_placed(after);
    assert(nodes1[r] == view);
    assert forall|id: usize| nodes0.dom().contains(id) && !chosen.contains(id) implies id != r
        && nodes1.dom().contains(id) && nodes1[id] == nodes0[id] by {
        assert(placed(after)[id] == placed(before)[id]);
    }
    assert forall|k: int| 0 <= k < entering.len() implies wires0.contains(#[trigger] entering[k])
        && on_side(entering[k], chosen, false, true) by {
        assert(entering.to_set().contains(entering[k]));
    }
    assert forall|k: int| 0 <= k < leaving.len() implies wires0.contains(#[trigger] leaving[k])
        && on_side(leaving[k], chosen, true, false) by {
        assert(leaving.to_set().contains(leaving[k]));
    }
    assert(wires1.finite()) by {
        vstd::set_lib::lemma_set_subset_finite(wires0, untouched);
    }
    assert forall|w: Wire| wires1.contains(w) implies wire_in_range(nodes1, w) by {
        if untouched.contains(w) {
            assert(wire_in_range(nodes0, w));
        } else if entries(entering, r).to_set().contains(w) {
            let k = choose|k: int| 0 <= k < entering.len() && entries(entering, r)[k] == w;
            assert(wire_in_range(nodes0, entering[k]));
        } else {
            let k = choose|k: int| 0 <= k < leaving.len() && exits(leaving, r)[k] == w;
            assert(wire_in_range(nodes0, leaving[k]));
        }
    }
    assert forall|a: Wire, b: Wire|
        wires1.contains(a) && wires1.contains(b) && a.to == b.to implies a == b by {
        lemma_outer_wire_kind(wires0, nodes0, chosen, entering, leaving, r, a);
        lemma_outer_wire_kind(wires0, nodes0, chosen, entering, leaving, r, b);
        if a.to.node == r {
            let i = choose|i: int| 0 <= i < entering.len() && entries(entering, r)[i] == a;
            let j = choose|j: int| 0 <= j < entering.len() && entries(entering, r)[j] == b;
            assert(entering.len() == e.inputs.len());
            assert(i as usize == j as usize);
        } else {
            let wa = if untouched.contains(a) {
                a
            } else {
                leaving[choose|k: int| 0 <= k < leaving.len() && exits(leaving, r)[k] == a]
            };
            let wb = if untouched.contains(b) {
                b
            } else {
                leaving[choose|k: int| 0 <= k < leaving.len() && exits(leaving, r)[k] == b]
            };
            assert(wires0.contains(wa) && wires0.contains(wb) && wa.to == wb.to);
            if !untouched.contains(a) {
                let i = choose|k: int| 0 <= k < leaving.len() && exits(leaving, r)[k] == a;
                let j = choose|k: int| 0 <= k < leaving.len() && exits(leaving, r)[k] == b;
                assert(i == j);
            }
        }
    }
}

/// A wire of the outer graph after the selection has left it either did not
/// touch the selection, or ends at the collapsed node and stands for a wire
/// that entered the selection, or starts there and stands for one that left.
proof fn lemma_outer_wire_kind(
    wires: Set<Wire>,
    nodes: Map<usize, NodeView>,
    chosen: Set<usize>,
    entering: Seq<Wire>,
    leaving: Seq<Wire>,
    r: usize,
    w: Wire,
)
    requires
        valid_graph(nodes, wires),
        !(nodes.dom().contains(r) && !chosen.contains(r)),
        entering.to_set() == select_set(wires, chosen, false, true),
        leaving.to_set() == select_set(wires, chosen, true, false),
        outer_wires(wires, chosen, entering, leaving, r).contains(w),
    ensures
        w.to.node == r <==> entries(entering, r).to_set().contains(w),
        w.from.node == r <==> exits(leaving, r).to_set().contains(w),
        w.to.node != r && w.from.node != r <==> select_set(wires, chosen, false, false).contains(w),
{
    if select_set(wires, chosen, false, false).contains(w) {
        assert(wire_in_range(nodes, w));
    }
    if entries(entering, r).to_set().contains(w) {
        let k = choose|k: int| 0 <= k < entering.len() && entries(entering, r)[k] == w;
        assert(entering.to_set().contains(entering[k]));
        assert(wire_in_range(nodes, entering[k]));
    }
    if exits(leaving, r).to_set().contains(w) {
        let k = choose|k: int| 0 <= k < leaving.len() && exits(leaving, r)[k] == w;
        assert(leaving.to_set().contains(leaving[k]));
        assert(wire_in_range(nodes, leaving[k]));
    }
}

/// Every port that a source feeds or a sink drains exists inside the
/// subsystem, on a node that was moved there.
proof fn lemma_boundary_ports(
    before: Snarl<Node>,
    chosen: Set<usize>,
    pos: Pos2,
    handle: usize,
    after: Snarl<Node>,
    inner: Snarl<Node>,
    e: Extraction,
)
    requires
        well_formed(before),
        e.describes(before, chosen, pos, handle, after, inner),
    ensures
        forall|k: int|
            0 <= k < e.fed().len() ==> has_input(
                snarl_nodes(inner),
                #[trigger] e.fed()[k],
            ) && e.moved@.values().contains(e.fed()[k].node),
        forall|k: int|
            0 <= k < e.drained().len() ==> has_output(
                snarl_nodes(inner),
                #[trigger] e.drained()[k],
            ) && e.moved@.values().contains(e.drained()[k].node),
{
    let nodes0 = snarl_nodes(before);
    let wires0 = snarl_wires(before);
    let held = placed(inner);
    let moved = e.moved@;
    lemma_nodes_of_placed(before);
    lemma_nodes_of_placed(inner);
    assert forall|k: int| 0 <= k < e.fed().len() implies has_input(
        snarl_nodes(inner),
        #[trigger] e.fed()[k],
    ) && moved.values().contains(e.fed()[k].node) by {
        let pin = e.fed()[k];
        if k < e.inputs@.len() {
            let w = e.inputs@[k];
            assert(e.inputs@.to_set().contains(w));
            assert(held[moved[w.to.node]] == placed(before)[w.to.node]);
        } else {
            let j = k - e.inputs@.len();
            let id = choose|id: usize| moved.dom().contains(id) && moved[id] == pin.node;
            assert(open_input(nodes0, wires0, InPort { node: id, input: pin.input }));
            assert(held[moved[id]] == placed(before)[id]);
        }
    }
    assert forall|k: int| 0 <= k < e.drained().len() implies has_output(
        snarl_nodes(inner),
        #[trigger] e.drained()[k],
    ) && moved.values().contains(e.drained()[k].node) by {
        let pin = e.drained()[k];
        if k < e.outputs@.len() {
            let w = e.outputs@[k];
            assert(e.outputs@.to_set().contains(w));
            assert(held[moved[w.from.node]] == placed(before)[w.from.node]);
        } else {
            let j = k - e.outputs@.len();
            assert(pin == e.open_outputs@[j]);
            let id = choose|id: usize| moved.dom().contains(id) && moved[id] == pin.node;
            assert(e.open_outputs@.contains(OutPort { node: moved[id], output: pin.output }));
            assert(held[moved[id]] == placed(before)[id]);
        }
    }
}

/// No two sources feed the same port.
proof fn lemma_fed_once(
    before: Snarl<Node>,
    chosen: Set<usize>,
    pos: Pos2,
    handle: usize,
    after: Snarl<Node>,
    inner: Snarl<Node>,
    e: Extraction,
    i: int,
    j: int,
)
    requires
        well_formed(before),
        e.describes(before, chosen, pos, handle, after, inner),
        0 <= i < e.fed().len(),
        0 <= j < e.fed().len(),
        e.fed()[i] == e.fed()[j],
    ensures
        i == j,
{
    let nodes0 = snarl_nodes(before);
    let wires0 = snarl_wires(before);
    let moved = e.moved@;
    let n = e.inputs@.len() as int;
    if i < n {
        let wi = e.inputs@[i];
        assert(e.inputs@.to_set().contains(wi));
        if j < n {
            let wj = e.inputs@[j];
            assert(e.inputs@.to_set().contains(wj));
            assert(wi == wj);
        } else {
            assert(open_input(nodes0, wires0, wi.to));
            assert(false);
        }
    } else {
        if j < n {
            let wj = e.inputs@[j];
            assert(e.inputs@.to_set().contains(wj));
            assert(e.open_inputs@.contains(InPort { node: moved[wj.to.node], input: wj.to.input }));
            assert(false);
        } else {
            let a = i - n;
            let b = j - n;
            if a < b {
                assert(input_before(e.open_inputs@[a], e.open_inputs@[b]));
            }
            if b < a {
                assert(input_before(e.open_inputs@[b], e.open_inputs@[a]));
            }
        }
    }
}

/// The graph of a subsystem made of a selection of a well-formed graph is
/// well formed.
pub proof fn lemma_inner_well_formed(
    before: Snarl<Node>,
    chosen: Set<usize>,
    pos: Pos2,
    handle: usize,
    after: Snarl<Node>,
    inner: Snarl<Node>,
    e: Extraction,
)
    requires
        well_formed(before),
        e.describes(before, chosen, pos, handle, after, inner),
    ensures
        well_formed(inner),
{
    let nodes0 = snarl_nodes(before);
    let wires0 = snarl_wires(before);
    let held = placed(inner);
    let nodes = snarl_nodes(inner);
    let set = snarl_wires(inner);
    let moved = e.moved@;
    let sources = e.sources@;
    let sinks = e.sinks@;
    let fed = e.fed();
    let drained = e.drained();
    let inside = select_set(wires0, chosen, true, true);
    lemma_nodes_of_placed(before);
    lemma_nodes_of_placed(inner);
    lemma_boundary_ports(before, chosen, pos, handle, after, inner, e);
    assert(set.finite()) by {
        vstd::set_lib::lemma_set_subset_finite(wires0, inside);
        inside.lemma_map_finite(renaming(moved));
    }
    assert forall|k: int| 0 <= k < sources.len() implies nodes.dom().contains(
        #[trigger] sources[k],
    ) && nodes[sources[k]].outputs.len() == 1 by {
        assert(sources.to_set().contains(sources[k]));
    }
    assert forall|k: int| 0 <= k < sinks.len() implies nodes.dom().contains(#[trigger] sinks[k])
        && nodes[sinks[k]].inputs.len() == 1 by {
        assert(sinks.to_set().contains(sinks[k]));
    }
    assert forall|w: Wire| inside.contains(w) implies moved.dom().contains(w.from.node)
        && moved.dom().contains(w.to.node) && wire_in_range(nodes, #[trigger] renamed(w, moved)) by {
        assert(wire_in_range(nodes0, w));
        assert(held[moved[w.to.node]] == placed(before)[w.to.node]);
    }
    assert forall|v: Wire| set.contains(v) implies wire_in_range(nodes, v) by {
        if inside.map(renaming(moved)).contains(v) {
            let w = choose|w: Wire| inside.contains(w) && v == renaming(moved)(w);
            assert(wire_in_range(nodes, renamed(w, moved)));
        } else if feeds(sources, fed).to_set().contains(v) {
            let k = choose|k: int| 0 <= k < fed.len() && feeds(sources, fed)[k] == v;
            assert(has_input(nodes, fed[k]));
        } else {
            let k = choose|k: int| 0 <= k < drained.len() && drains(drained, sinks)[k] == v;
            assert(has_output(nodes, drained[k]));
        }
    }
    assert forall|a: Wire, b: Wire| set.contains(a) && set.contains(b) && a.to == b.to implies a
        == b by {
        if drains(drained, sinks).to_set().contains(a) || drains(drained, sinks).to_set().contains(
            b,
        ) {
            let c = if drains(drained, sinks).to_set().contains(a) {
                a
            } else {
                b
            };
            let d = if drains(drained, sinks).to_set().contains(a) {
                b
            } else {
                a
            };
            let i = choose|k: int| 0 <= k < drained.len() && drains(drained, sinks)[k] == c;
            if inside.map(renaming(moved)).contains(d) {
                let w = choose|w: Wire| inside.contains(w) && d == renaming(moved)(w);
                assert(false);
            }
            if feeds(sources, fed).to_set().contains(d) {
                let k = choose|k: int| 0 <= k < fed.len() && feeds(sources, fed)[k] == d;
                let id = choose|id: usize| moved.dom().contains(id) && moved[id] == fed[k].node;
                assert(moved[id] != sinks[i]);
                assert(false);
            }
            let j = choose|k: int| 0 <= k < drained.len() && drains(drained, sinks)[k] == d;
            assert(i == j);
        } else if feeds(sources, fed).to_set().contains(a) || feeds(sources, fed).to_set().contains(
            b,
        ) {
            let c = if feeds(sources, fed).to_set().contains(a) {
                a
            } else {
                b
            };
            let d = if feeds(sources, fed).to_set().contains(a) {
                b
            } else {
                a
            };
            let i = choose|k: int| 0 <= k < fed.len() && feeds(sources, fed)[k] == c;
            if feeds(sources, fed).to_set().contains(d) {
                let j = choose|k: int| 0 <= k < fed.len() && feeds(sources, fed)[k] == d;
                lemma_fed_once(before, chosen, pos, handle, after, inner, e, i, j);
            } else {
                let w = choose|w: Wire| inside.contains(w) && d == renaming(moved)(w);
                if i < e.inputs@.len() {
                    let x = e.inputs@[i];
                    assert(e.inputs@.to_set().contains(x));
                    assert(false);
                } else {
                    assert(e.open_inputs@.contains(
                        InPort { node: moved[w.to.node], input: w.to.input },
                    ));
                    assert(false);
                }
            }
        } else {
            let wa = choose|w: Wire| inside.contains(w) && a == renaming(moved)(w);
            let wb = choose|w: Wire| inside.contains(w) && b == renaming(moved)(w);
            assert(wa == wb);
        }
    }
}

/// The wires with exactly one end on a node of `chosen`.
pub open spec fn crossing(wires: Set<Wire>, chosen: Set<usize>) -> Set<Wire> {
    Set::new(
        |w: Wire| wires.contains(w) && chosen.contains(w.from.node) != chosen.contains(w.to.node),
    )
}

/// The wires that end at a node.
pub open spec fn wires_into(wires: Set<Wire>, node: usize) -> Set<Wire> {
    Set::new(|w: Wire| wires.contains(w) && w.to.node == node)
}

/// The wires that start at a node.
pub open spec fn wires_out_of(wires: Set<Wire>, node: usize) -> Set<Wire> {
    Set::new(|w: Wire| wires.contains(w) && w.from.node == node)
}

/// Turning a selection into a subsystem keeps every wire that crossed the
/// selection's border. The wire of index `k` that entered the selection now
/// runs from the same output port outside to the collapsed node's input
/// `k`, and the wire of index `k` that left it now runs from the collapsed
/// node's output `k` to the same input port outside. The collapsed node
/// carries no other wire, so it carries exactly as many wires as crossed the
/// border; and the wires that did not touch the selection are all still
/// there.
pub proof fn lemma_wire_preservation(
    before: Snarl<Node>,
    chosen: Set<usize>,
    pos: Pos2,
    handle: usize,
    after: Snarl<Node>,
    inner: Snarl<Node>,
    e: Extraction,
)
    requires
        well_formed(before),
        e.describes(before, chosen, pos, handle, after, inner),
    ensures
        crossing(snarl_wires(before), chosen) == e.inputs@.to_set().union(e.outputs@.to_set()),
        forall|k: int|
            0 <= k < e.inputs@.len() ==> snarl_wires(after).contains(
                #[trigger] entries(e.inputs@, e.node)[k],
            ),
        forall|k: int|
            0 <= k < e.outputs@.len() ==> snarl_wires(after).contains(
                #[trigger] exits(e.outputs@, e.node)[k],
            ),
        forall|w: Wire|
            #[trigger] snarl_wires(after).contains(w) && w.to.node == e.node ==> w.to.input
                < e.inputs@.len() && w == entries(e.inputs@, e.node)[w.to.input as int],
        forall|w: Wire|
            #[trigger] snarl_wires(after).contains(w) && w.from.node == e.node ==> w.from.output
                < e.outputs@.len() && w == exits(e.outputs@, e.node)[w.from.output as int],
        crossing(snarl_wires(before), chosen).len() == wires_into(snarl_wires(after), e.node).len()
            + wires_out_of(snarl_wires(after), e.node).len(),
        forall|w: Wire|
            snarl_wires(before).contains(w) && on_side(w, chosen, false, false) ==> snarl_wires(
                after,
            ).contains(w),
{
    let nodes0 = snarl_nodes(before);
    let wires0 = snarl_wires(before);
    let wires1 = snarl_wires(after);
    let entering = e.inputs@;
    let leaving = e.outputs@;
    let r = e.node;
    let coming = entries(entering, r);
    let going = exits(leaving, r);
    lemma_nodes_of_placed(before);
    assert(entering.len() == e.inputs.len());
    assert(leaving.len() == e.outputs.len());
    assert(crossing(wires0, chosen) =~= entering.to_set().union(leaving.to_set()));
    assert forall|k: int| 0 <= k < entering.len() implies wires1.contains(#[trigger] coming[k]) by {
        assert(coming.to_set().contains(coming[k]));
    }
    assert forall|k: int| 0 <= k < leaving.len() implies wires1.contains(#[trigger] going[k]) by {
        assert(going.to_set().contains(going[k]));
    }
    assert forall|w: Wire| #[trigger] wires1.contains(w) && w.to.node == r implies w.to.input
        < entering.len() && w == coming[w.to.input as int] by {
        lemma_outer_wire_kind(wires0, nodes0, chosen, entering, leaving, r, w);
        let k = choose|k: int| 0 <= k < entering.len() && coming[k] == w;
        assert(w.to.input == k);
    }
    assert forall|w: Wire| #[trigger] wires1.contains(w) && w.from.node == r implies w.from.output
        < leaving.len() && w == going[w.from.output as int] by {
        lemma_outer_wire_kind(wires0, nodes0, chosen, entering, leaving, r, w);
        let k = choose|k: int| 0 <= k < leaving.len() && going[k] == w;
        assert(w.from.output == k);
    }
    assert(wires_into(wires1, r) =~= coming.to_set()) by {
        assert forall|w: Wire| wires_into(wires1, r).contains(w) <==> coming.to_set().contains(
            w,
        ) by {
            if wires1.contains(w) {
                lemma_outer_wire_kind(wires0, nodes0, chosen, entering, leaving, r, w);
            }
            if coming.to_set().contains(w) {
                let k = choose|k: int| 0 <= k < entering.len() && coming[k] == w;
                assert(wires1.contains(coming[k]));
            }
        }
    }
    assert(wires_out_of(wires1, r) =~= going.to_set()) by {
        assert forall|w: Wire| wires_out_of(wires1, r).contains(w) <==> going.to_set().contains(
            w,
        ) by {
            if wires1.contains(w) {
                lemma_outer_wire_kind(wires0, nodes0, chosen, entering, leaving, r, w);
            }
            if going.to_set().contains(w) {
                let k = choose|k: int| 0 <= k < leaving.len() && going[k] == w;
                assert(wires1.contains(going[k]));
            }
        }
    }
    assert(coming.no_duplicates()) by {
        assert forall|i: int, j: int|
            0 <= i < coming.len() && 0 <= j < coming.len() && i != j implies coming[i]
            != coming[j] by {
            assert(coming[i].to.input == i && coming[j].to.input == j);
        }
    }
    assert(going.no_duplicates()) by {
        assert forall|i: int, j: int|
            0 <= i < going.len() && 0 <= j < going.len() && i != j implies going[i] != going[j] by {
            assert(going[i].from.output == i && going[j].from.output == j);
        }
    }
    coming.unique_seq_to_set();
    going.unique_seq_to_set();
    entering.unique_seq_to_set();
    leaving.unique_seq_to_set();
    vstd::set_lib::lemma_set_disjoint_lens(entering.to_set(), leaving.to_set());
}

/// Turning a selection into a subsystem keeps the wires between selected
/// nodes, and adds none between them: each such wire is found inside the
/// subsystem with both of its nodes renamed, and every wire inside the
/// subsystem that joins two moved nodes is such a wire renamed.
pub proof fn lemma_internal_closure(
    before: Snarl<Node>,
    chosen: Set<usize>,
    pos: Pos2,
    handle: usize,
    after: Snarl<Node>,
    inner: Snarl<Node>,
    e: Extraction,
)
    requires
        well_formed(before),
        e.describes(before, chosen, pos, handle, after, inner),
    ensures
        forall|w: Wire|
            snarl_wires(before).contains(w) && on_side(w, chosen, true, true) ==> snarl_wires(
                inner,
            ).contains(#[trigger] renamed(w, e.moved@)),
        forall|v: Wire|
            #[trigger] snarl_wires(inner).contains(v) && e.moved@.values().contains(
                v.from.node,
            ) && e.moved@.values().contains(v.to.node) ==> exists|w: Wire|
                snarl_wires(before).contains(w) && on_side(w, chosen, true, true) && v
                    == #[trigger] renamed(w, e.moved@),
{
    let wires0 = snarl_wires(before);
    let set = snarl_wires(inner);
    let moved = e.moved@;
    let sources = e.sources@;
    let sinks = e.sinks@;
    let fed = e.fed();
    let drained = e.drained();
    let inside = select_set(wires0, chosen, true, true);
    assert forall|w: Wire| wires0.contains(w) && on_side(w, chosen, true, true) implies set.contains(
        #[trigger] renamed(w, moved),
    ) by {
        assert(inside.contains(w));
        assert(inside.map(renaming(moved)).contains(renamed(w, moved)));
    }
    assert forall|v: Wire|
        #[trigger] set.contains(v) && moved.values().contains(v.from.node) && moved.values().contains(
            v.to.node,
        ) implies exists|w: Wire|
        wires0.contains(w) && on_side(w, chosen, true, true) && v == #[trigger] renamed(
            w,
            moved,
        ) by {
        let a = choose|a: usize| moved.dom().contains(a) && moved[a] == v.from.node;
        let b = choose|b: usize| moved.dom().contains(b) && moved[b] == v.to.node;
        if feeds(sources, fed).to_set().contains(v) {
            let k = choose|k: int| 0 <= k < fed.len() && feeds(sources, fed)[k] == v;
            assert(moved[a] != sources[k]);
            assert(false);
        }
        if drains(drained, sinks).to_set().contains(v) {
            let k = choose|k: int| 0 <= k < drained.len() && drains(drained, sinks)[k] == v;
            assert(moved[b] != sinks[k]);
            assert(false);
        }
        let w = choose|w: Wire| inside.contains(w) && v == renaming(moved)(w);
        assert(wires0.contains(w) && on_side(w, chosen, true, true) && v == renamed(w, moved));
    }
}

/// Turning a selection into a subsystem shows every port of a selected node
/// that carried no wire: the collapsed node has, behind the ports for the
/// wires that crossed the border, a port of the same name and of kind
/// `Internal` that carries no wire either, and inside the subsystem that
/// port of the moved node is fed by a source, or drained by a sink, of its
/// own.
pub proof fn lemma_open_ports_exposed(
    before: Snarl<Node>,
    chosen: Set<usize>,
    pos: Pos2,
    handle: usize,
    after: Snarl<Node>,
    inner: Snarl<Node>,
    e: Extraction,
)
    requires
        well_formed(before),
        e.describes(before, chosen, pos, handle, after, inner),
    ensures
        forall|id: usize, input: usize|
            chosen.contains(id) && #[trigger] open_input(
                snarl_nodes(before),
                snarl_wires(before),
                InPort { node: id, input },
            ) ==> exists|j: int|
                {
                    &&& e.inputs@.len() <= j < e.fed().len()
                    &&& #[trigger] e.fed()[j] == InPort { node: e.moved@[id], input }
                    &&& snarl_wires(inner).contains(feeds(e.sources@, e.fed())[j])
                    &&& snarl_nodes(after)[e.node].inputs[j] == Port {
                        name: snarl_nodes(before)[id].inputs[input as int].name,
                        kind: PortKind::Internal,
                    }
                    &&& open_input(
                        snarl_nodes(after),
                        snarl_wires(after),
                        InPort { node: e.node, input: j as usize },
                    )
                },
        forall|id: usize, output: usize|
            chosen.contains(id) && #[trigger] open_output(
                snarl_nodes(before),
                snarl_wires(before),
                OutPort { node: id, output },
            ) ==> exists|j: int|
                {
                    &&& e.outputs@.len() <= j < e.drained().len()
                    &&& #[trigger] e.drained()[j] == OutPort { node: e.moved@[id], output }
                    &&& snarl_wires(inner).contains(drains(e.drained(), e.sinks@)[j])
                    &&& snarl_nodes(after)[e.node].outputs[j] == Port {
                        name: snarl_nodes(before)[id].outputs[output as int].name,
                        kind: PortKind::Internal,
                    }
                    &&& open_output(
                        snarl_nodes(after),
                        snarl_wires(after),
                        OutPort { node: e.node, output: j as usize },
                    )
                },
{
    let nodes0 = snarl_nodes(before);
    let wires0 = snarl_wires(before);
    let nodes1 = snarl_nodes(after);
    let wires1 = snarl_wires(after);
    let held = placed(inner);
    let set = snarl_wires(inner);
    let moved = e.moved@;
    let r = e.node;
    let fed = e.fed();
    let drained = e.drained();
    let view = collapsed(held, fed, drained, handle);
    lemma_nodes_of_placed(before);
    lemma_nodes_of_placed(after);
    lemma_wire_preservation(before, chosen, pos, handle, after, inner, e);
    assert(nodes1[r] == view);
    assert(e.sources@.len() == e.sources.len());
    assert(e.sinks@.len() == e.sinks.len());
    assert forall|id: usize, input: usize|
        chosen.contains(id) && #[trigger] open_input(
            nodes0,
            wires0,
            InPort { node: id, input },
        ) implies exists|j: int|
        {
            &&& e.inputs@.len() <= j < fed.len()
            &&& #[trigger] fed[j] == InPort { node: moved[id], input }
            &&& set.contains(feeds(e.sources@, fed)[j])
            &&& nodes1[r].inputs[j] == Port {
                name: nodes0[id].inputs[input as int].name,
                kind: PortKind::Internal,
            }
            &&& open_input(nodes1, wires1, InPort { node: r, input: j as usize })
        } by {
        let pin = InPort { node: moved[id], input };
        let i = choose|i: int| 0 <= i < e.open_inputs@.len() && e.open_inputs@[i] == pin;
        let j = e.inputs@.len() + i;
        assert(fed[j] == pin);
        let target = InPort { node: r, input: j as usize };
        assert forall|from: OutPort| !wires1.contains(Wire { from, to: target }) by {
            let w = Wire { from, to: target };
            if wires1.contains(w) {
                assert(w.to.input < e.inputs@.len());
            }
        }
    }
    assert forall|id: usize, output: usize|
        chosen.contains(id) && #[trigger] open_output(
            nodes0,
            wires0,
            OutPort { node: id, output },
        ) implies exists|j: int|
        {
            &&& e.outputs@.len() <= j < drained.len()
            &&& #[trigger] drained[j] == OutPort { node: moved[id], output }
            &&& set.contains(drains(drained, e.sinks@)[j])
            &&& nodes1[r].outputs[j] == Port {
                name: nodes0[id].outputs[output as int].name,
                kind: PortKind::Internal,
            }
            &&& open_output(nodes1, wires1, OutPort { node: r, output: j as usize })
        } by {
        let pin = OutPort { node: moved[id], output };
        let i = choose|i: int| 0 <= i < e.open_outputs@.len() && e.open_outputs@[i] == pin;
        let j = e.outputs@.len() + i;
        assert(drained[j] == pin);
        let origin = OutPort { node: r, output: j as usize };
        assert forall|to: InPort| !wires1.contains(Wire { from: origin, to }) by {
            let w = Wire { from: origin, to };
            if wires1.contains(w) {
                assert(w.from.output < e.outputs@.len());
            }
        }
    }
}

} // verus!
