use diagram::extract::convert_to_subsystem;
use diagram::graph::{connect, insert_node, is_well_formed, node, position, wires};
use diagram::node::{Input, Node, Output, PortKind};
use diagram::wire::{InPort, OutPort, Wire};
use egui_snarl::Snarl;

fn at(x: f32, y: f32) -> egui::Pos2 {
    egui::pos2(x, y)
}

fn named(name: &str, inputs: &[&str], outputs: &[&str]) -> Node {
    Node {
        name: name.to_string(),
        inputs: inputs
            .iter()
            .map(|n| Input { name: n.to_string(), kind: PortKind::Normal })
            .collect(),
        outputs: outputs
            .iter()
            .map(|n| Output { name: n.to_string(), kind: PortKind::Normal })
            .collect(),
        subsystem: None,
    }
}

fn wire(from: usize, output: usize, to: usize, input: usize) -> Wire {
    Wire { from: OutPort { node: from, output }, to: InPort { node: to, input } }
}

fn sorted(mut list: Vec<Wire>) -> Vec<Wire> {
    list.sort_by_key(|w| (w.from.node, w.from.output, w.to.node, w.to.input));
    list
}

fn count_nodes(snarl: &Snarl<Node>) -> usize {
    snarl.node_ids().count()
}

#[test]
fn selecting_both_ends_keeps_the_wire_inside() {
    let mut graph: Snarl<Node> = Snarl::new();
    let a = insert_node(&mut graph, at(0.0, 0.0), named("A", &[], &["x"]));
    let b = insert_node(&mut graph, at(200.0, 0.0), named("B", &["y"], &[]));
    assert!(connect(&mut graph, wire(a, 0, b, 0)));

    let (subsystem, made) =
        convert_to_subsystem(&mut graph, &vec![a, b], at(50.0, 60.0), 7).unwrap();

    assert!(made.inputs.is_empty());
    assert!(made.outputs.is_empty());
    assert!(made.open_inputs.is_empty());
    assert!(made.open_outputs.is_empty());
    assert!(made.sources.is_empty());
    assert!(made.sinks.is_empty());
    assert_eq!(made.moved.len(), 2);

    let inner = &subsystem.snarl;
    let new_a = made.moved[&a];
    let new_b = made.moved[&b];
    assert_eq!(count_nodes(inner), 2);
    assert_eq!(node(inner, new_a).unwrap().name, "A");
    assert_eq!(node(inner, new_a).unwrap().outputs[0].name, "x");
    assert_eq!(node(inner, new_b).unwrap().name, "B");
    assert_eq!(node(inner, new_b).unwrap().inputs[0].name, "y");
    assert_eq!(wires(inner), vec![wire(new_a, 0, new_b, 0)]);

    assert_eq!(count_nodes(&graph), 1);
    assert!(wires(&graph).is_empty());
    let collapsed = node(&graph, made.node).unwrap();
    assert_eq!(collapsed.name, "Subsystem");
    assert!(collapsed.inputs.is_empty());
    assert!(collapsed.outputs.is_empty());
    assert_eq!(collapsed.subsystem, Some(7));
    assert_eq!(position(&graph, made.node), Some(at(50.0, 60.0)));
}

#[test]
fn selecting_the_middle_node_routes_both_wires_through_the_boundary() {
    let mut graph: Snarl<Node> = Snarl::new();
    let a = insert_node(&mut graph, at(0.0, 0.0), named("A", &[], &["x"]));
    let b = insert_node(&mut graph, at(200.0, 10.0), named("B", &["y"], &["v"]));
    let c = insert_node(&mut graph, at(400.0, 0.0), named("C", &["z"], &[]));
    assert!(connect(&mut graph, wire(a, 0, b, 0)));
    assert!(connect(&mut graph, wire(b, 0, c, 0)));

    let (subsystem, made) = convert_to_subsystem(&mut graph, &vec![b], at(5.0, 6.0), 1).unwrap();

    assert_eq!(made.inputs, vec![wire(a, 0, b, 0)]);
    assert_eq!(made.outputs, vec![wire(b, 0, c, 0)]);
    assert!(made.open_inputs.is_empty());
    assert!(made.open_outputs.is_empty());
    assert_eq!(made.sources.len(), 1);
    assert_eq!(made.sinks.len(), 1);

    let inner = &subsystem.snarl;
    let new_b = made.moved[&b];
    let source = made.sources[0];
    let sink = made.sinks[0];
    assert_eq!(count_nodes(inner), 3);
    assert_eq!(node(inner, new_b).unwrap().name, "B");
    assert_eq!(position(inner, new_b), Some(at(200.0, 10.0)));

    let source_node = node(inner, source).unwrap();
    assert_eq!(source_node.name, "Ext1");
    assert!(source_node.inputs.is_empty());
    assert_eq!(source_node.outputs.len(), 1);
    assert_eq!(source_node.outputs[0].name, "y");
    assert_eq!(source_node.outputs[0].kind, PortKind::External);
    assert_eq!(source_node.subsystem, None);
    assert_eq!(position(inner, source), Some(at(0.0, 0.0)));

    let sink_node = node(inner, sink).unwrap();
    assert_eq!(sink_node.name, "Ext1");
    assert!(sink_node.outputs.is_empty());
    assert_eq!(sink_node.inputs.len(), 1);
    assert_eq!(sink_node.inputs[0].name, "v");
    assert_eq!(sink_node.inputs[0].kind, PortKind::External);
    assert_eq!(position(inner, sink), Some(at(100.0, 0.0)));

    assert_eq!(
        sorted(wires(inner)),
        sorted(vec![wire(source, 0, new_b, 0), wire(new_b, 0, sink, 0)])
    );

    let collapsed = node(&graph, made.node).unwrap();
    assert_eq!(collapsed.inputs.len(), 1);
    assert_eq!(collapsed.inputs[0].name, "y");
    assert_eq!(collapsed.inputs[0].kind, PortKind::Internal);
    assert_eq!(collapsed.outputs.len(), 1);
    assert_eq!(collapsed.outputs[0].name, "v");
    assert_eq!(collapsed.outputs[0].kind, PortKind::Internal);
    assert_eq!(collapsed.subsystem, Some(1));

    assert_eq!(count_nodes(&graph), 3);
    assert!(node(&graph, a).is_some());
    assert!(node(&graph, c).is_some());
    assert_eq!(
        sorted(wires(&graph)),
        sorted(vec![wire(a, 0, made.node, 0), wire(made.node, 0, c, 0)])
    );
    assert!(is_well_formed(&graph));
    assert!(is_well_formed(inner));
}

#[test]
fn an_unconnected_input_is_shown_on_the_collapsed_node() {
    let mut graph: Snarl<Node> = Snarl::new();
    let n = insert_node(&mut graph, at(30.0, 40.0), named("N", &["w"], &[]));

    let (subsystem, made) = convert_to_subsystem(&mut graph, &vec![n], at(0.0, 0.0), 1).unwrap();

    let inner = &subsystem.snarl;
    let new_n = made.moved[&n];
    assert!(made.inputs.is_empty());
    assert!(made.outputs.is_empty());
    assert_eq!(made.open_inputs, vec![InPort { node: new_n, input: 0 }]);
    assert!(made.open_outputs.is_empty());
    assert_eq!(made.sources.len(), 1);
    assert!(made.sinks.is_empty());

    let source = made.sources[0];
    assert_eq!(count_nodes(inner), 2);
    let source_node = node(inner, source).unwrap();
    assert_eq!(source_node.name, "ExtUC1");
    assert_eq!(source_node.outputs[0].name, "w");
    assert_eq!(source_node.outputs[0].kind, PortKind::External);
    assert_eq!(wires(inner), vec![wire(source, 0, new_n, 0)]);

    let collapsed = node(&graph, made.node).unwrap();
    assert_eq!(collapsed.inputs.len(), 1);
    assert_eq!(collapsed.inputs[0].name, "w");
    assert_eq!(collapsed.inputs[0].kind, PortKind::Internal);
    assert!(collapsed.outputs.is_empty());
    assert!(wires(&graph).is_empty());
}

#[test]
fn an_empty_selection_is_refused() {
    let mut graph: Snarl<Node> = Snarl::new();
    let a = insert_node(&mut graph, at(0.0, 0.0), named("A", &[], &["x"]));
    assert!(convert_to_subsystem(&mut graph, &vec![], at(0.0, 0.0), 1).is_none());
    assert_eq!(count_nodes(&graph), 1);
    assert_eq!(node(&graph, a).unwrap().name, "A");
}

#[test]
fn a_graph_with_a_wire_to_a_missing_port_is_refused() {
    let mut graph: Snarl<Node> = Snarl::new();
    let a = insert_node(&mut graph, at(0.0, 0.0), named("A", &[], &["x"]));
    let b = insert_node(&mut graph, at(0.0, 0.0), named("B", &["y"], &[]));
    graph.connect(
        egui_snarl::OutPinId { node: egui_snarl::NodeId(a), output: 0 },
        egui_snarl::InPinId { node: egui_snarl::NodeId(b), input: 5 },
    );
    assert!(!is_well_formed(&graph));
    assert!(convert_to_subsystem(&mut graph, &vec![a], at(0.0, 0.0), 1).is_none());
    assert_eq!(count_nodes(&graph), 2);
    assert_eq!(wires(&graph), vec![wire(a, 0, b, 5)]);
}

#[test]
fn selected_identifiers_without_a_node_count_for_nothing() {
    let mut graph: Snarl<Node> = Snarl::new();
    let a = insert_node(&mut graph, at(0.0, 0.0), named("A", &[], &[]));
    let (subsystem, made) =
        convert_to_subsystem(&mut graph, &vec![a + 10, a, a], at(0.0, 0.0), 1).unwrap();
    assert_eq!(made.moved.len(), 1);
    assert!(made.moved.contains_key(&a));
    assert_eq!(count_nodes(&subsystem.snarl), 1);
    assert_eq!(count_nodes(&graph), 1);
    assert_eq!(node(&graph, made.node).unwrap().name, "Subsystem");
}

#[test]
fn every_crossing_wire_keeps_its_outer_end() {
    let mut graph: Snarl<Node> = Snarl::new();
    let s1 = insert_node(&mut graph, at(0.0, 0.0), named("S1", &[], &["o"]));
    let s2 = insert_node(&mut graph, at(0.0, 0.0), named("S2", &[], &["p", "q"]));
    let m1 = insert_node(&mut graph, at(0.0, 0.0), named("M1", &["a", "b"], &["c"]));
    let m2 = insert_node(&mut graph, at(0.0, 0.0), named("M2", &["d", "e"], &["f", "g"]));
    let t = insert_node(&mut graph, at(0.0, 0.0), named("T", &["h", "i", "j"], &[]));
    assert!(connect(&mut graph, wire(s1, 0, m1, 0)));
    assert!(connect(&mut graph, wire(s2, 1, m1, 1)));
    assert!(connect(&mut graph, wire(s2, 1, m2, 1)));
    assert!(connect(&mut graph, wire(m1, 0, m2, 0)));
    assert!(connect(&mut graph, wire(m2, 0, t, 0)));
    assert!(connect(&mut graph, wire(m2, 0, t, 2)));
    assert!(connect(&mut graph, wire(s1, 0, t, 1)));
    let before = wires(&graph);
    let crossing: Vec<Wire> = before
        .iter()
        .copied()
        .filter(|w| [m1, m2].contains(&w.from.node) != [m1, m2].contains(&w.to.node))
        .collect();
    assert_eq!(crossing.len(), 5);

    let (subsystem, made) =
        convert_to_subsystem(&mut graph, &vec![m1, m2], at(0.0, 0.0), 1).unwrap();

    let after = wires(&graph);
    let touching: Vec<Wire> = after
        .iter()
        .copied()
        .filter(|w| w.from.node == made.node || w.to.node == made.node)
        .collect();
    assert_eq!(touching.len(), crossing.len());
    assert_eq!(made.inputs.len(), 3);
    assert_eq!(made.outputs.len(), 2);
    for (k, w) in made.inputs.iter().enumerate() {
        assert!(crossing.contains(w));
        assert!(after.contains(&Wire { from: w.from, to: InPort { node: made.node, input: k } }));
    }
    for (k, w) in made.outputs.iter().enumerate() {
        assert!(crossing.contains(w));
        assert!(after.contains(&Wire { from: OutPort { node: made.node, output: k }, to: w.to }));
    }
    assert!(after.contains(&wire(s1, 0, t, 1)));
    assert_eq!(after.len(), 6);

    let inner = wires(&subsystem.snarl);
    assert!(inner.contains(&wire(made.moved[&m1], 0, made.moved[&m2], 0)));
    let between: Vec<Wire> = inner
        .iter()
        .copied()
        .filter(|w| {
            made.moved.values().any(|v| *v == w.from.node)
                && made.moved.values().any(|v| *v == w.to.node)
        })
        .collect();
    assert_eq!(between.len(), 1);

    assert_eq!(made.open_outputs, vec![OutPort { node: made.moved[&m2], output: 1 }]);
    let collapsed = node(&graph, made.node).unwrap();
    assert_eq!(collapsed.outputs.len(), 3);
    assert_eq!(collapsed.outputs[2].name, "g");
    assert_eq!(collapsed.outputs[2].kind, PortKind::Internal);
    assert!(!after.iter().any(|w| w.from == OutPort { node: made.node, output: 2 }));
    let sink = node(&subsystem.snarl, made.sinks[2]).unwrap();
    assert_eq!(sink.name, "ExtOutUC1");
    assert_eq!(sink.inputs[0].name, "g");
    assert_eq!(position(&subsystem.snarl, made.sinks[2]), Some(at(300.0, 0.0)));
    assert!(is_well_formed(&graph));
    assert!(is_well_formed(&subsystem.snarl));
}

#[test]
fn stand_ins_are_numbered_and_placed_in_order() {
    let mut graph: Snarl<Node> = Snarl::new();
    let names: Vec<String> = (0..12).map(|i| format!("in{}", i)).collect();
    let refs: Vec<&str> = names.iter().map(|s| s.as_str()).collect();
    let n = insert_node(&mut graph, at(0.0, 0.0), named("N", &refs, &["u", "v"]));

    let (subsystem, made) = convert_to_subsystem(&mut graph, &vec![n], at(0.0, 0.0), 1).unwrap();

    let inner = &subsystem.snarl;
    assert_eq!(made.sources.len(), 12);
    assert_eq!(made.sinks.len(), 2);
    for k in 0..12 {
        let source = node(inner, made.sources[k]).unwrap();
        assert_eq!(source.name, format!("ExtUC{}", k + 1));
        assert_eq!(source.outputs[0].name, format!("in{}", k));
        assert_eq!(position(inner, made.sources[k]), Some(at(0.0, -150.0 * k as f32)));
        assert_eq!(made.open_inputs[k], InPort { node: made.moved[&n], input: k });
    }
    assert_eq!(node(inner, made.sources[9]).unwrap().name, "ExtUC10");
    assert_eq!(node(inner, made.sinks[1]).unwrap().name, "ExtOutUC2");
    assert_eq!(position(inner, made.sinks[1]), Some(at(300.0, -150.0)));
    let collapsed = node(&graph, made.node).unwrap();
    assert_eq!(collapsed.inputs.len(), 12);
    assert_eq!(collapsed.inputs[11].name, "in11");
    assert_eq!(collapsed.outputs[1].name, "v");
}

#[test]
fn severed_wires_get_stand_ins_fifty_apart() {
    let mut graph: Snarl<Node> = Snarl::new();
    let s = insert_node(&mut graph, at(0.0, 0.0), named("S", &[], &["o"]));
    let m = insert_node(&mut graph, at(0.0, 0.0), named("M", &["a", "b", "c"], &[]));
    assert!(connect(&mut graph, wire(s, 0, m, 0)));
    assert!(connect(&mut graph, wire(s, 0, m, 1)));
    assert!(connect(&mut graph, wire(s, 0, m, 2)));

    let (subsystem, made) = convert_to_subsystem(&mut graph, &vec![m], at(0.0, 0.0), 1).unwrap();

    let inner = &subsystem.snarl;
    assert_eq!(made.inputs.len(), 3);
    for k in 0..3 {
        let source = node(inner, made.sources[k]).unwrap();
        assert_eq!(source.name, format!("Ext{}", k + 1));
        assert_eq!(position(inner, made.sources[k]), Some(at(0.0, 50.0 * k as f32)));
        let names = ["a", "b", "c"];
        assert_eq!(source.outputs[0].name, names[made.inputs[k].to.input]);
    }
}
