//! A diagram: all its subsystems, of which one is being viewed, and the way
//! back up from it.
//!
//! The subsystems stand in an arena. A handle is an index into it; the
//! node that a subsystem is nested in holds the subsystem's handle, and so
//! does the history while the subsystem is one of those above the one
//! viewed. Handle 0 is the top level.

use vstd::prelude::*;
use egui::Pos2;
use egui_snarl::Snarl;
use crate::extract::{convert_to_subsystem, Extraction};
use crate::graph::well_formed;
use crate::node::{Node, NodeView};
use crate::select::contains_id;
use crate::snarl::{snarl_get_node, snarl_get_node_mut, snarl_nodes, snarl_positions, snarl_wires};
use crate::subsystem::Subsystem;

verus! {

broadcast use vstd::seq_lib::group_seq_properties;

/// All subsystems of a diagram, the one that is viewed, and those above it.
pub struct Diagram {
    subsystems: Vec<Subsystem>,
    current: usize,
    previous: Vec<usize>,
}

/// What entering a node does to its graph.
pub enum Entry {
    /// The graph has no such node, or the node's handle cannot be entered.
    Refused,
    /// The node has a subsystem, which is entered.
    Existing(usize),
    /// The node has none: it gets an empty one, which is entered.
    Created,
}

impl Diagram {
    /// The graphs of all subsystems, by handle.
    pub closed spec fn graphs(self) -> Seq<Snarl<Node>> {
        self.subsystems@.map_values(|s: Subsystem| s.snarl)
    }

    /// The handle of the subsystem that is viewed.
    pub closed spec fn viewed(self) -> usize {
        self.current
    }

    /// The handles of the subsystems above the one viewed, the top level
    /// first and the one directly above last.
    pub closed spec fn history(self) -> Seq<usize> {
        self.previous@
    }

    /// The graph that is viewed.
    pub open spec fn graph(self) -> Snarl<Node> {
        self.graphs()[self.viewed() as int]
    }

    /// The handles in use are handles of the arena, the history names no
    /// subsystem twice, and it does not name the one that is viewed.
    pub open spec fn wf(self) -> bool {
        &&& self.viewed() < self.graphs().len()
        &&& self.history().no_duplicates()
        &&& forall|i: int|
            0 <= i < self.history().len() ==> self.history()[i] < self.graphs().len()
                && self.history()[i] != self.viewed()
    }

    /// Both diagrams hold the same graphs, view the same one and have the
    /// same history.
    pub open spec fn same_as(self, other: Diagram) -> bool {
        &&& self.graphs() == other.graphs()
        &&& self.viewed() == other.viewed()
        &&& self.history() == other.history()
    }

    /// What entering the node `node` of the viewed graph would do.
    pub open spec fn entry(self, node: usize) -> Entry {
        let nodes = snarl_nodes(self.graph());
        if !nodes.dom().contains(node) {
            Entry::Refused
        } else {
            match nodes[node].subsystem {
                Some(handle) => if handle < self.graphs().len() && handle != self.viewed()
                    && !self.history().contains(handle) {
                    Entry::Existing(handle)
                } else {
                    Entry::Refused
                },
                None => Entry::Created,
            }
        }
    }

    /// A diagram of one subsystem, the top level, which is viewed.
    pub fn new(toplevel: Subsystem) -> (diagram: Diagram)
        ensures
            diagram.wf(),
            diagram.graphs() == seq![toplevel.snarl],
            diagram.viewed() == 0,
            diagram.history() == Seq::<usize>::empty(),
    {
        let mut subsystems: Vec<Subsystem> = Vec::new();
        subsystems.push(toplevel);
        Diagram { subsystems, current: 0, previous: Vec::new() }
    }

    /// A diagram of the given subsystems, of which the first is the top
    /// level and is viewed. Without a subsystem there is no diagram.
    pub fn from_subsystems(subsystems: Vec<Subsystem>) -> (made: Option<Diagram>)
        ensures
            made.is_some() == (subsystems.len() > 0),
            made.is_some() ==> {
                let diagram = made.unwrap();
                &&& diagram.wf()
                &&& diagram.graphs() == subsystems@.map_values(|s: Subsystem| s.snarl)
                &&& diagram.viewed() == 0
                &&& diagram.history() == Seq::<usize>::empty()
            },
    {
        if subsystems.len() == 0 {
            return None;
        }
        Some(Diagram { subsystems, current: 0, previous: Vec::new() })
    }

    /// Tests whether the diagram is well formed. A diagram made and changed
    /// by the functions of this type always is.
    pub fn is_wf(&self) -> (ok: bool)
        ensures
            ok == self.wf(),
    {
        if self.current >= self.subsystems.len() {
            return false;
        }
        let mut i: usize = 0;
        while i < self.previous.len()
            invariant
                i <= self.previous.len(),
                self.current < self.subsystems.len(),
                forall|a: int|
                    0 <= a < i ==> self.previous[a] < self.subsystems.len() && self.previous[a]
                        != self.current,
                forall|a: int, b: int| 0 <= a < b < i ==> self.previous[a] != self.previous[b],
            decreases self.previous.len() - i,
        {
            let handle = self.previous[i];
            if handle >= self.subsystems.len() || handle == self.current {
                return false;
            }
            let mut j: usize = 0;
            while j < i
                invariant
                    j <= i,
                    i < self.previous.len(),
                    handle == self.previous[i as int],
                    forall|a: int| 0 <= a < j ==> self.previous[a] != handle,
                decreases i - j,
            {
                if self.previous[j] == handle {
                    return false;
                }
                j += 1;
            }
            i += 1;
        }
        true
    }

    /// All subsystems, by handle.
    pub fn subsystems(&self) -> (all: &Vec<Subsystem>)
        ensures
            all@.map_values(|s: Subsystem| s.snarl) == self.graphs(),
    {
        &self.subsystems
    }

    /// The handle of the subsystem that is viewed.
    pub fn current(&self) -> (handle: usize)
        ensures
            handle == self.viewed(),
    {
        self.current
    }

    /// How many subsystems lie above the one viewed.
    pub fn depth(&self) -> (levels: usize)
        ensures
            levels == self.history().len(),
    {
        self.previous.len()
    }

    /// The graph that is viewed.
    pub fn current_graph(&self) -> (snarl: &Snarl<Node>)
        requires
            self.wf(),
        ensures
            *snarl == self.graph(),
    {
        &self.subsystems[self.current].snarl
    }

    /// The graph that is viewed, for changing in place. Nothing else of the
    /// diagram changes with it.
    pub fn current_graph_mut(&mut self) -> (snarl: &mut Snarl<Node>)
        requires
            old(self).wf(),
        ensures
            *snarl == old(self).graph(),
            final(self).wf(),
            final(self).graphs() == old(self).graphs().update(
                old(self).viewed() as int,
                *final(snarl),
            ),
            final(self).viewed() == old(self).viewed(),
            final(self).history() == old(self).history(),
    {
        let i = self.current;
        &mut self.subsystems[i].snarl
    }

    /// Goes into the subsystem of a node of the viewed graph: the viewed
    /// subsystem becomes the last of the history, and the node's subsystem
    /// is viewed. A node without a subsystem gets an empty one first, whose
    /// handle is the next free one. Nothing happens where the graph has no
    /// such node, or where the node's handle is none of the arena or names a
    /// subsystem on the way from the top level to the one viewed.
    pub fn enter(&mut self, node: usize) -> (entered: bool)
        requires
            old(self).wf(),
        ensures
            final(self).wf(),
            entered == !(old(self).entry(node) is Refused),
            match old(self).entry(node) {
                Entry::Refused => final(self).same_as(*old(self)),
                Entry::Existing(handle) => {
                    &&& final(self).graphs() == old(self).graphs()
                    &&& final(self).viewed() == handle
                    &&& final(self).history() == old(self).history().push(old(self).viewed())
                },
                Entry::Created => {
                    let handle = old(self).graphs().len();
                    let nodes = snarl_nodes(old(self).graph());
                    &&& final(self).graphs().len() == handle + 1
                    &&& forall|h: int|
                        0 <= h < handle && h != old(self).viewed() ==> final(self).graphs()[h] == old(
                            self,
                        ).graphs()[h]
                    &&& snarl_nodes(final(self).graphs()[old(self).viewed() as int]) == nodes.insert(
                        node,
                        NodeView { subsystem: Some(handle as usize), ..nodes[node] },
                    )
                    &&& snarl_positions(final(self).graphs()[old(self).viewed() as int])
                        == snarl_positions(old(self).graph())
                    &&& snarl_wires(final(self).graphs()[old(self).viewed() as int]) == snarl_wires(
                        old(self).graph(),
                    )
                    &&& (Subsystem { snarl: final(self).graphs()[handle as int] }).is_empty()
                    &&& final(self).viewed() == handle
                    &&& final(self).history() == old(self).history().push(old(self).viewed())
                },
            },
    {
        let here = self.current;
        let held = match snarl_get_node(&self.subsystems[here].snarl, node) {
            Some(found) => found.subsystem,
            None => {
                return false;
            },
        };
        let target = match held {
            Some(handle) => {
                if handle >= self.subsystems.len() || handle == here || contains_id(
                    &self.previous,
                    handle,
                ) {
                    return false;
                }
                handle
            },
            None => {
                let handle = self.subsystems.len();
                match snarl_get_node_mut(&mut self.subsystems[here].snarl, node) {
                    Some(found) => {
                        found.subsystem = Some(handle);
                    },
                    None => {},
                }
                self.subsystems.push(Subsystem::new());
                handle
            },
        };
        self.previous.push(here);
        self.current = target;
        true
    }

    /// Goes back up one level: the last subsystem of the history is viewed
    /// again. At the top level nothing happens.
    pub fn leave(&mut self) -> (left: bool)
        requires
            old(self).wf(),
        ensures
            final(self).wf(),
            left == (old(self).history().len() > 0),
            final(self).graphs() == old(self).graphs(),
            left ==> final(self).viewed() == old(self).history().last() && final(self).history()
                == old(self).history().drop_last(),
            !left ==> final(self).same_as(*old(self)),
    {
        match self.previous.pop() {
            Some(above) => {
                self.current = above;
                true
            },
            None => false,
        }
    }

    /// Turns the selected nodes of the viewed graph into a subsystem, which
    /// gets the next free handle, and puts a collapsed node at `pos` in
    /// their place. An empty selection is refused, and so is a graph that is
    /// not well formed: then nothing changes.
    pub fn convert_to_subsystem(&mut self, selected: &Vec<usize>, pos: Pos2) -> (made: Option<
        Extraction,
    >)
        requires
            old(self).wf(),
        ensures
            final(self).wf(),
            final(self).viewed() == old(self).viewed(),
            final(self).history() == old(self).history(),
            made.is_some() == (selected.len() > 0 && well_formed(old(self).graph())),
            made.is_none() ==> final(self).same_as(*old(self)),
            made.is_some() ==> {
                let handle = old(self).graphs().len();
                &&& final(self).graphs().len() == handle + 1
                &&& forall|h: int|
                    0 <= h < handle && h != old(self).viewed() ==> final(self).graphs()[h] == old(
                        self,
                    ).graphs()[h]
                &&& made.unwrap().describes(
                    old(self).graph(),
                    selected@.to_set(),
                    pos,
                    handle as usize,
                    final(self).graph(),
                    final(self).graphs()[handle as int],
                )
                &&& well_formed(final(self).graph())
                &&& well_formed(final(self).graphs()[handle as int])
            },
    {
        let here = self.current;
        let handle = self.subsystems.len();
        let ghost before = self.graphs();
        match convert_to_subsystem(&mut self.subsystems[here].snarl, selected, pos, handle) {
            Some((subsystem, account)) => {
                self.subsystems.push(subsystem);
                Some(account)
            },
            None => {
                assert(self.graphs() =~= before);
                None
            },
        }
    }
}

} // verus!
