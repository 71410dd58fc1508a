//! Hierarchical block diagrams: named nodes with input and output ports,
//! directed wires between ports, and nested subsystems that appear as a
//! single collapsed node one level up.
//!
//! A graph is the node-graph container of `egui_snarl`, holding [`node::Node`]
//! values. [`snarl`] states what the container does; everything else is
//! proved against that:
//!
//! - [`graph`]: what makes a graph well formed, and the operations on nodes
//!   and wires;
//! - [`ports`]: dropping the wires of a port, and the port with them;
//! - [`select`]: the wires inside a selection, entering it and leaving it;
//! - [`extract`]: turning a selection into a subsystem, with [`boundary`]
//!   for the pieces it is made of and [`laws`] for what always holds of it;
//! - [`navigation`]: the diagram as a whole, going into a subsystem and back
//!   up.

pub mod node;
pub mod wire;
pub mod snarl;
pub mod graph;
pub mod ports;
pub mod select;
pub mod boundary;
pub mod extract;
pub mod laws;
pub mod subsystem;
pub mod navigation;
