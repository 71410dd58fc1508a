use diagram::graph::{
    add_input, add_output, connect, disconnect, insert_node, is_well_formed, node, node_ids,
    position, remove_node, rename_input, rename_node, rename_output, unconnected_inputs,
    unconnected_outputs, wires,
};
use diagram::node::{Input, Node, Output, PortKind};
use diagram::ports::{drop_inputs, drop_outputs};
use diagram::select::{contains_id, wires_where};
use diagram::subsystem::Subsystem;
use diagram::wire::{InPort, OutPort, Wire};
use egui_snarl::Snarl;

fn origin() -> egui::Pos2 {
    egui::pos2(0.0, 0.0)
}

fn block(name: &str, inputs: &[&str], outputs: &[&str]) -> Node {
    Node {
        name: name.to_string(),
        inputs: inputs
            .iter()
            .map(|n| Input { name: n.to_string(), kind: PortKind::Normal })
            .collect(),
        outputs: outputs
            .iter()
            .map(|n| Output { name: n.to_string(), kind: PortKind::Normal })
            .collect(),
        subsystem: None,
    }
}

fn link(from: usize, output: usize, to: usize, input: usize) -> Wire {
    Wire { from: OutPort { node: from, output }, to: InPort { node: to, input } }
}

fn in_order(mut list: Vec<Wire>) -> Vec<Wire> {
    list.sort_by_key(|w| (w.from.node, w.from.output, w.to.node, w.to.input));
    list
}

#[test]
fn new_ports_and_nodes_have_their_default_names() {
    let input = Input::default();
    assert_eq!(input.name, "Input");
    assert_eq!(input.kind, PortKind::Normal);
    let output = Output::default();
    assert_eq!(output.name, "Output");
    assert_eq!(output.kind, PortKind::Normal);
    let node = Node::default();
    assert_eq!(node.name, "Node");
    assert!(node.inputs.is_empty());
    assert!(node.outputs.is_empty());
    assert_eq!(node.subsystem, None);
}

#[test]
fn a_new_subsystem_is_empty() {
    let subsystem = Subsystem::new();
    assert!(node_ids(&subsystem.snarl).is_empty());
    assert!(wires(&subsystem.snarl).is_empty());
    let other = Subsystem::default();
    assert!(node_ids(&other.snarl).is_empty());
}

#[test]
fn inserted_nodes_get_fresh_identifiers() {
    let mut graph: Snarl<Node> = Snarl::new();
    let a = insert_node(&mut graph, egui::pos2(1.0, 2.0), block("A", &[], &[]));
    let b = insert_node(&mut graph, egui::pos2(3.0, 4.0), block("B", &[], &[]));
    assert_ne!(a, b);
    assert_eq!(node_ids(&graph), vec![a.min(b), a.max(b)]);
    assert_eq!(node(&graph, a).unwrap().name, "A");
    assert_eq!(node(&graph, b).unwrap().name, "B");
    assert_eq!(position(&graph, a), Some(egui::pos2(1.0, 2.0)));
    assert_eq!(position(&graph, b), Some(egui::pos2(3.0, 4.0)));
    assert!(node(&graph, a + b + 1).is_none());
    assert_eq!(position(&graph, a + b + 1), None);
}

#[test]
fn removing_a_node_drops_its_wires_and_returns_it() {
    let mut graph: Snarl<Node> = Snarl::new();
    let a = insert_node(&mut graph, origin(), block("A", &[], &["x"]));
    let b = insert_node(&mut graph, origin(), block("B", &["y"], &["z"]));
    let c = insert_node(&mut graph, origin(), block("C", &["u", "v"], &[]));
    assert!(connect(&mut graph, link(a, 0, b, 0)));
    assert!(connect(&mut graph, link(b, 0, c, 0)));
    assert!(connect(&mut graph, link(a, 0, c, 1)));

    let removed = remove_node(&mut graph, b).unwrap();
    assert_eq!(removed.name, "B");
    assert_eq!(removed.inputs.len(), 1);
    assert!(node(&graph, b).is_none());
    assert_eq!(wires(&graph), vec![link(a, 0, c, 1)]);
    assert!(is_well_formed(&graph));

    assert!(remove_node(&mut graph, b).is_none());
    assert_eq!(node_ids(&graph).len(), 2);
    assert_eq!(wires(&graph), vec![link(a, 0, c, 1)]);
}

#[test]
fn connecting_replaces_the_wire_that_the_input_carried() {
    let mut graph: Snarl<Node> = Snarl::new();
    let a = insert_node(&mut graph, origin(), block("A", &[], &["x", "y"]));
    let b = insert_node(&mut graph, origin(), block("B", &["in"], &[]));
    assert!(connect(&mut graph, link(a, 0, b, 0)));
    assert_eq!(wires(&graph), vec![link(a, 0, b, 0)]);
    assert!(connect(&mut graph, link(a, 1, b, 0)));
    assert_eq!(wires(&graph), vec![link(a, 1, b, 0)]);
    assert!(connect(&mut graph, link(a, 1, b, 0)));
    assert_eq!(wires(&graph), vec![link(a, 1, b, 0)]);
    assert!(is_well_formed(&graph));
}

#[test]
fn an_output_may_fan_out() {
    let mut graph: Snarl<Node> = Snarl::new();
    let a = insert_node(&mut graph, origin(), block("A", &[], &["x"]));
    let b = insert_node(&mut graph, origin(), block("B", &["p", "q"], &[]));
    assert!(connect(&mut graph, link(a, 0, b, 0)));
    assert!(connect(&mut graph, link(a, 0, b, 1)));
    assert_eq!(in_order(wires(&graph)), vec![link(a, 0, b, 0), link(a, 0, b, 1)]);
    assert!(is_well_formed(&graph));
}

#[test]
fn connecting_to_a_missing_port_changes_nothing() {
    let mut graph: Snarl<Node> = Snarl::new();
    let a = insert_node(&mut graph, origin(), block("A", &[], &["x"]));
    let b = insert_node(&mut graph, origin(), block("B", &["in"], &[]));
    assert!(!connect(&mut graph, link(a, 1, b, 0)));
    assert!(!connect(&mut graph, link(a, 0, b, 1)));
    assert!(!connect(&mut graph, link(a, 0, b + 5, 0)));
    assert!(!connect(&mut graph, link(a + 5, 0, b, 0)));
    assert!(wires(&graph).is_empty());
}

#[test]
fn disconnecting_takes_out_one_wire() {
    let mut graph: Snarl<Node> = Snarl::new();
    let a = insert_node(&mut graph, origin(), block("A", &[], &["x"]));
    let b = insert_node(&mut graph, origin(), block("B", &["p", "q"], &[]));
    assert!(connect(&mut graph, link(a, 0, b, 0)));
    assert!(connect(&mut graph, link(a, 0, b, 1)));
    assert!(disconnect(&mut graph, link(a, 0, b, 0)));
    assert_eq!(wires(&graph), vec![link(a, 0, b, 1)]);
    assert!(!disconnect(&mut graph, link(a, 0, b, 0)));
    assert!(!disconnect(&mut graph, link(a + 9, 0, b, 1)));
    assert_eq!(wires(&graph), vec![link(a, 0, b, 1)]);
}

#[test]
fn added_ports_go_behind_the_others() {
    let mut graph: Snarl<Node> = Snarl::new();
    let a = insert_node(&mut graph, origin(), block("A", &["first"], &[]));
    assert!(add_input(&mut graph, a));
    assert!(add_output(&mut graph, a));
    assert!(!add_input(&mut graph, a + 1));
    assert!(!add_output(&mut graph, a + 1));
    let node = node(&graph, a).unwrap();
    assert_eq!(node.inputs.len(), 2);
    assert_eq!(node.inputs[0].name, "first");
    assert_eq!(node.inputs[1].name, "Input");
    assert_eq!(node.inputs[1].kind, PortKind::Normal);
    assert_eq!(node.outputs.len(), 1);
    assert_eq!(node.outputs[0].name, "Output");
}

#[test]
fn renaming_changes_only_the_name() {
    let mut graph: Snarl<Node> = Snarl::new();
    let a = insert_node(&mut graph, origin(), block("A", &["i", "j"], &["o"]));
    assert!(rename_node(&mut graph, a, "Renamed".to_string()));
    assert!(rename_input(&mut graph, InPort { node: a, input: 1 }, "second".to_string()));
    assert!(rename_output(&mut graph, OutPort { node: a, output: 0 }, "out".to_string()));
    assert!(!rename_node(&mut graph, a + 1, "x".to_string()));
    assert!(!rename_input(&mut graph, InPort { node: a, input: 2 }, "x".to_string()));
    assert!(!rename_output(&mut graph, OutPort { node: a, output: 1 }, "x".to_string()));
    let node = node(&graph, a).unwrap();
    assert_eq!(node.name, "Renamed");
    assert_eq!(node.inputs[0].name, "i");
    assert_eq!(node.inputs[1].name, "second");
    assert_eq!(node.inputs[1].kind, PortKind::Normal);
    assert_eq!(node.outputs[0].name, "out");
}

#[test]
fn dropping_an_ordinary_input_moves_the_ports_behind_it_down() {
    let mut graph: Snarl<Node> = Snarl::new();
    let a = insert_node(&mut graph, origin(), block("A", &[], &["x", "y", "z"]));
    let b = insert_node(&mut graph, origin(), block("B", &["p", "q", "r"], &["s"]));
    let c = insert_node(&mut graph, origin(), block("C", &["t", "u"], &[]));
    assert!(connect(&mut graph, link(a, 0, b, 0)));
    assert!(connect(&mut graph, link(a, 1, b, 1)));
    assert!(connect(&mut graph, link(a, 2, b, 2)));
    assert!(connect(&mut graph, link(b, 0, c, 1)));

    let left = drop_inputs(&mut graph, InPort { node: b, input: 1 });

    assert_eq!(left, 2);
    let node_b = node(&graph, b).unwrap();
    assert_eq!(node_b.inputs.len(), 2);
    assert_eq!(node_b.inputs[0].name, "p");
    assert_eq!(node_b.inputs[1].name, "r");
    assert_eq!(
        in_order(wires(&graph)),
        in_order(vec![link(a, 0, b, 0), link(a, 2, b, 1), link(b, 0, c, 1)])
    );
    assert!(is_well_formed(&graph));
}

#[test]
fn dropping_an_ordinary_output_moves_the_ports_behind_it_down() {
    let mut graph: Snarl<Node> = Snarl::new();
    let a = insert_node(&mut graph, origin(), block("A", &[], &["x", "y", "z"]));
    let b = insert_node(&mut graph, origin(), block("B", &["p", "q", "r", "s"], &[]));
    assert!(connect(&mut graph, link(a, 0, b, 0)));
    assert!(connect(&mut graph, link(a, 0, b, 1)));
    assert!(connect(&mut graph, link(a, 1, b, 2)));
    assert!(connect(&mut graph, link(a, 2, b, 3)));

    let left = drop_outputs(&mut graph, OutPort { node: a, output: 0 });

    assert_eq!(left, 2);
    let node_a = node(&graph, a).unwrap();
    assert_eq!(node_a.outputs.len(), 2);
    assert_eq!(node_a.outputs[0].name, "y");
    assert_eq!(node_a.outputs[1].name, "z");
    assert_eq!(in_order(wires(&graph)), in_order(vec![link(a, 0, b, 2), link(a, 1, b, 3)]));
    assert!(is_well_formed(&graph));
}

#[test]
fn dropping_the_wires_of_a_boundary_port_keeps_the_port() {
    let mut graph: Snarl<Node> = Snarl::new();
    let a = insert_node(&mut graph, origin(), block("A", &[], &["x"]));
    let mut shown = block("S", &["in", "more"], &["out"]);
    shown.inputs[0].kind = PortKind::Internal;
    shown.outputs[0].kind = PortKind::External;
    let s = insert_node(&mut graph, origin(), shown);
    let c = insert_node(&mut graph, origin(), block("C", &["t"], &[]));
    assert!(connect(&mut graph, link(a, 0, s, 0)));
    assert!(connect(&mut graph, link(a, 0, s, 1)));
    assert!(connect(&mut graph, link(s, 0, c, 0)));

    assert_eq!(drop_inputs(&mut graph, InPort { node: s, input: 0 }), 2);
    assert_eq!(drop_outputs(&mut graph, OutPort { node: s, output: 0 }), 1);

    let node_s = node(&graph, s).unwrap();
    assert_eq!(node_s.inputs.len(), 2);
    assert_eq!(node_s.inputs[0].name, "in");
    assert_eq!(node_s.outputs.len(), 1);
    assert_eq!(wires(&graph), vec![link(a, 0, s, 1)]);
}

#[test]
fn dropping_at_a_missing_node_or_port_removes_no_port() {
    let mut graph: Snarl<Node> = Snarl::new();
    let a = insert_node(&mut graph, origin(), block("A", &["p"], &["x"]));
    assert_eq!(drop_inputs(&mut graph, InPort { node: a + 1, input: 0 }), 0);
    assert_eq!(drop_outputs(&mut graph, OutPort { node: a + 1, output: 0 }), 0);
    assert_eq!(drop_inputs(&mut graph, InPort { node: a, input: 3 }), 1);
    assert_eq!(drop_outputs(&mut graph, OutPort { node: a, output: 3 }), 1);
    assert_eq!(node(&graph, a).unwrap().inputs.len(), 1);
    assert_eq!(node(&graph, a).unwrap().outputs.len(), 1);
}

#[test]
fn dropping_the_last_port_leaves_none() {
    let mut graph: Snarl<Node> = Snarl::new();
    let a = insert_node(&mut graph, origin(), block("A", &["p"], &["x"]));
    assert_eq!(drop_inputs(&mut graph, InPort { node: a, input: 0 }), 0);
    assert_eq!(drop_outputs(&mut graph, OutPort { node: a, output: 0 }), 0);
    assert!(node(&graph, a).unwrap().inputs.is_empty());
    assert!(node(&graph, a).unwrap().outputs.is_empty());
}

#[test]
fn a_graph_with_two_wires_into_one_input_is_not_well_formed() {
    let mut graph: Snarl<Node> = Snarl::new();
    let a = insert_node(&mut graph, origin(), block("A", &[], &["x", "y"]));
    let b = insert_node(&mut graph, origin(), block("B", &["p"], &[]));
    assert!(connect(&mut graph, link(a, 0, b, 0)));
    assert!(is_well_formed(&graph));
    graph.connect(
        egui_snarl::OutPinId { node: egui_snarl::NodeId(a), output: 1 },
        egui_snarl::InPinId { node: egui_snarl::NodeId(b), input: 0 },
    );
    assert_eq!(wires(&graph).len(), 2);
    assert!(!is_well_formed(&graph));
}

#[test]
fn unconnected_ports_are_listed_by_node_and_index() {
    let mut graph: Snarl<Node> = Snarl::new();
    let a = insert_node(&mut graph, origin(), block("A", &["i"], &["x", "y"]));
    let b = insert_node(&mut graph, origin(), block("B", &["p", "q", "r"], &["s"]));
    assert!(connect(&mut graph, link(a, 1, b, 1)));
    assert_eq!(
        unconnected_inputs(&graph),
        vec![
            InPort { node: a, input: 0 },
            InPort { node: b, input: 0 },
            InPort { node: b, input: 2 }
        ]
    );
    assert_eq!(
        unconnected_outputs(&graph),
        vec![OutPort { node: a, output: 0 }, OutPort { node: b, output: 0 }]
    );
}

#[test]
fn wires_are_picked_by_the_side_they_lie_on() {
    let all = vec![link(1, 0, 2, 0), link(2, 0, 3, 0), link(3, 0, 4, 0), link(5, 0, 6, 0), link(2, 1, 3, 1)];
    let selected = vec![2, 3];
    assert_eq!(wires_where(&all, &selected, true, true), vec![link(2, 0, 3, 0), link(2, 1, 3, 1)]);
    assert_eq!(wires_where(&all, &selected, false, true), vec![link(1, 0, 2, 0)]);
    assert_eq!(wires_where(&all, &selected, true, false), vec![link(3, 0, 4, 0)]);
    assert_eq!(wires_where(&all, &selected, false, false), vec![link(5, 0, 6, 0)]);
    assert!(wires_where(&all, &vec![], true, true).is_empty());
    assert_eq!(wires_where(&all, &vec![], false, false), all);
}

#[test]
fn a_list_holds_its_identifiers() {
    assert!(contains_id(&vec![4, 7, 9], 7));
    assert!(!contains_id(&vec![4, 7, 9], 8));
    assert!(!contains_id(&vec![], 0));
}
