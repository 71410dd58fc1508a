//! Port addresses and wires.

use vstd::prelude::*;

verus! {

/// An output port, addressed by its node's identifier and its index in the
/// node's list of outputs.
#[derive(Clone, Copy, Debug, PartialEq, Eq, Hash, Structural)]
pub struct OutPort {
    pub node: usize,
    pub output: usize,
}

/// An input port, addressed by its node's identifier and its index in the
/// node's list of inputs.
#[derive(Clone, Copy, Debug, PartialEq, Eq, Hash, Structural)]
pub struct InPort {
    pub node: usize,
    pub input: usize,
}

/// A directed connection from an output port to an input port.
#[derive(Clone, Copy, Debug, PartialEq, Eq, Hash, Structural)]
pub struct Wire {
    pub from: OutPort,
    pub to: InPort,
}

} // verus!
