//! Ports and nodes, and their mathematical views.

use vstd::prelude::*;

verus! {

/// What a port stands for at a subsystem boundary.
#[derive(Clone, Copy, Debug, PartialEq, Eq, Structural)]
pub enum PortKind {
    /// An ordinary port.
    Normal,
    /// A port of a stand-in node inside a subsystem: the outside world seen
    /// from within.
    External,
    /// A port of a collapsed node: what its subsystem exposes.
    Internal,
}

/// What a port holds: its name and its kind.
#[verifier::ext_equal]
pub struct Port {
    pub name: Seq<char>,
    pub kind: PortKind,
}

/// An input port of a node.
#[derive(Clone, Debug)]
pub struct Input {
    pub name: String,
    pub kind: PortKind,
}

/// An output port of a node.
#[derive(Clone, Debug)]
pub struct Output {
    pub name: String,
    pub kind: PortKind,
}

impl View for Input {
    type V = Port;

    open spec fn view(&self) -> Port {
        Port { name: self.name@, kind: self.kind }
    }
}

impl View for Output {
    type V = Port;

    open spec fn view(&self) -> Port {
        Port { name: self.name@, kind: self.kind }
    }
}

impl Input {
    /// What a new input port holds.
    pub open spec fn default_view() -> Port {
        Port { name: "Input"@, kind: PortKind::Normal }
    }
}

impl Output {
    /// What a new output port holds.
    pub open spec fn default_view() -> Port {
        Port { name: "Output"@, kind: PortKind::Normal }
    }
}

impl Default for Input {
    fn default() -> (port: Input)
        ensures
            port@ == Input::default_view(),
    {
        Input { name: "Input".to_owned(), kind: PortKind::Normal }
    }
}

impl Default for Output {
    fn default() -> (port: Output)
        ensures
            port@ == Output::default_view(),
    {
        Output { name: "Output".to_owned(), kind: PortKind::Normal }
    }
}

/// What a node holds: its name, its ports in order, and the handle of the
/// subsystem nested in it, if any.
#[verifier::ext_equal]
pub struct NodeView {
    pub name: Seq<char>,
    pub inputs: Seq<Port>,
    pub outputs: Seq<Port>,
    pub subsystem: Option<usize>,
}

/// A node of a diagram.
#[derive(Clone, Debug)]
pub struct Node {
    pub name: String,
    pub inputs: Vec<Input>,
    pub outputs: Vec<Output>,
    /// Handle of the nested subsystem in the diagram's arena.
    pub subsystem: Option<usize>,
}

impl View for Node {
    type V = NodeView;

    open spec fn view(&self) -> NodeView {
        NodeView {
            name: self.name@,
            inputs: self.inputs@.map_values(|p: Input| p@),
            outputs: self.outputs@.map_values(|p: Output| p@),
            subsystem: self.subsystem,
        }
    }
}

impl Default for Node {
    fn default() -> (node: Node)
        ensures
            node@ == (NodeView {
                name: "Node"@,
                inputs: Seq::empty(),
                outputs: Seq::empty(),
                subsystem: None,
            }),
    {
        let node =
            Node { name: "Node".to_owned(), inputs: Vec::new(), outputs: Vec::new(), subsystem: None };
        node
    }
}

} // verus!
