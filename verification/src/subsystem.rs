//! A subsystem: one graph of its own, nested in a node or standing at the
//! top of a diagram.

use vstd::prelude::*;
use egui_snarl::Snarl;
use crate::node::Node;
use crate::snarl::{snarl_new, snarl_nodes, snarl_positions, snarl_wires};
use crate::wire::Wire;

verus! {

/// A subsystem owns exactly one graph.
pub struct Subsystem {
    pub snarl: Snarl<Node>,
}

impl Subsystem {
    /// The subsystem has neither nodes nor wires.
    pub open spec fn is_empty(&self) -> bool {
        &&& snarl_nodes(self.snarl).dom() == Set::<usize>::empty()
        &&& snarl_positions(self.snarl).dom() == Set::<usize>::empty()
        &&& snarl_wires(self.snarl) == Set::<Wire>::empty()
    }

    /// A subsystem without nodes and without wires.
    pub fn new() -> (subsystem: Subsystem)
        ensures
            subsystem.is_empty(),
    {
        Subsystem { snarl: snarl_new() }
    }
}

impl Default for Subsystem {
    fn default() -> (subsystem: Subsystem)
        ensures
            subsystem.is_empty(),
    {
        Subsystem::new()
    }
}

} // verus!
