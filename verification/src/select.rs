//! Wires picked out by a set of nodes: those inside it, those that enter it
//! and those that leave it.

use vstd::prelude::*;
use crate::wire::Wire;

verus! {

broadcast use vstd::seq_lib::group_seq_properties;

/// Where the two ends of a wire lie with respect to a set of nodes: the
/// wire starts inside the set exactly if `from_inside`, and ends inside it
/// exactly if `to_inside`.
pub open spec fn on_side(wire: Wire, inside: Set<usize>, from_inside: bool, to_inside: bool) -> bool {
    inside.contains(wire.from.node) == from_inside && inside.contains(wire.to.node) == to_inside
}

/// The wires of a list that lie on the given side of a set of nodes, in the
/// list's order.
pub open spec fn select(
    wires: Seq<Wire>,
    inside: Set<usize>,
    from_inside: bool,
    to_inside: bool,
) -> Seq<Wire> {
    wires.filter(|w: Wire| on_side(w, inside, from_inside, to_inside))
}

/// The wires of a set that lie on the given side of a set of nodes.
pub open spec fn select_set(
    wires: Set<Wire>,
    inside: Set<usize>,
    from_inside: bool,
    to_inside: bool,
) -> Set<Wire> {
    Set::new(|w: Wire| wires.contains(w) && on_side(w, inside, from_inside, to_inside))
}

/// Picking from a list without repeats gives a list without repeats that
/// holds what picking from the list's set gives.
pub proof fn lemma_select(wires: Seq<Wire>, inside: Set<usize>, from_inside: bool, to_inside: bool)
    requires
        wires.no_duplicates(),
    ensures
        select(wires, inside, from_inside, to_inside).no_duplicates(),
        select(wires, inside, from_inside, to_inside).to_set() == select_set(
            wires.to_set(),
            inside,
            from_inside,
            to_inside,
        ),
    decreases wires.len(),
{
    let pred = |w: Wire| on_side(w, inside, from_inside, to_inside);
    let picked = select(wires, inside, from_inside, to_inside);
    reveal(Seq::filter);
    if wires.len() > 0 {
        let rest = wires.drop_last();
        let last = wires.last();
        lemma_select(rest, inside, from_inside, to_inside);
        let sub = select(rest, inside, from_inside, to_inside);
        assert(!sub.to_set().contains(last));
        assert(picked.to_set() =~= select_set(wires.to_set(), inside, from_inside, to_inside)) by {
            assert forall|w: Wire| picked.to_set().contains(w) <==> select_set(
                wires.to_set(),
                inside,
                from_inside,
                to_inside,
            ).contains(w) by {
                assert(sub.to_set().contains(w) <==> rest.to_set().contains(w) && pred(w));
            }
        }
    }
}

/// Whether a list of identifiers holds a given one.
pub fn contains_id(ids: &Vec<usize>, id: usize) -> (found: bool)
    ensures
        found == ids@.contains(id),
{
    let mut i: usize = 0;
    while i < ids.len()
        invariant
            i <= ids.len(),
            forall|j: int| 0 <= j < i ==> ids[j] != id,
        decreases ids.len() - i,
    {
        if ids[i] == id {
            return true;
        }
        i += 1;
    }
    false
}

/// The wires of a list that lie on the given side of the selected nodes, in
/// the list's order: with both flags set those inside the selection, with
/// only `to_inside` those that enter it, with only `from_inside` those that
/// leave it, with neither those that do not touch it.
pub fn wires_where(
    wires: &Vec<Wire>,
    selected: &Vec<usize>,
    from_inside: bool,
    to_inside: bool,
) -> (picked: Vec<Wire>)
    ensures
        picked@ == select(wires@, selected@.to_set(), from_inside, to_inside),
{
    let ghost inside = selected@.to_set();
    let mut picked: Vec<Wire> = Vec::new();
    let mut i: usize = 0;
    while i < wires.len()
        invariant
            i <= wires.len(),
            inside == selected@.to_set(),
            picked@ == select(wires@.take(i as int), inside, from_inside, to_inside),
        decreases wires.len() - i,
    {
        let wire = wires[i];
        proof {
            wires@.lemma_take_succ_push(i as int);
            wires@.take(i as int).lemma_filter_push(
                wire,
                |w: Wire| on_side(w, inside, from_inside, to_inside),
            );
        }
        if contains_id(selected, wire.from.node) == from_inside && contains_id(
            selected,
            wire.to.node,
        ) == to_inside {
            picked.push(wire);
        }
        i += 1;
    }
    proof {
        wires@.lemma_take_len();
    }
    picked
}

} // verus!
