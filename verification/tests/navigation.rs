use diagram::graph::{connect, insert_node, node, node_ids, wires};
use diagram::navigation::Diagram;
use diagram::node::{Input, Node, Output, PortKind};
use diagram::subsystem::Subsystem;
use diagram::wire::{InPort, OutPort, Wire};

fn zero() -> egui::Pos2 {
    egui::pos2(0.0, 0.0)
}

fn plain(name: &str) -> Node {
    Node { name: name.to_string(), inputs: Vec::new(), outputs: Vec::new(), subsystem: None }
}

#[test]
fn a_new_diagram_views_its_top_level() {
    let diagram = Diagram::new(Subsystem::new());
    assert_eq!(diagram.current(), 0);
    assert_eq!(diagram.depth(), 0);
    assert_eq!(diagram.subsystems().len(), 1);
    assert!(node_ids(diagram.current_graph()).is_empty());
}

#[test]
fn no_diagram_without_a_subsystem() {
    assert!(Diagram::from_subsystems(Vec::new()).is_none());
    let diagram = Diagram::from_subsystems(vec![Subsystem::new(), Subsystem::new()]).unwrap();
    assert_eq!(diagram.current(), 0);
    assert_eq!(diagram.depth(), 0);
    assert_eq!(diagram.subsystems().len(), 2);
}

#[test]
fn entering_a_node_without_a_subsystem_gives_it_one() {
    let mut diagram = Diagram::new(Subsystem::new());
    let a = insert_node(diagram.current_graph_mut(), zero(), plain("A"));

    assert!(diagram.enter(a));

    assert_eq!(diagram.current(), 1);
    assert_eq!(diagram.depth(), 1);
    assert_eq!(diagram.subsystems().len(), 2);
    assert!(node_ids(diagram.current_graph()).is_empty());
    assert_eq!(node(&diagram.subsystems()[0].snarl, a).unwrap().subsystem, Some(1));

    assert!(diagram.leave());
    assert_eq!(diagram.current(), 0);
    assert_eq!(diagram.depth(), 0);

    assert!(diagram.enter(a));
    assert_eq!(diagram.current(), 1);
    assert_eq!(diagram.subsystems().len(), 2);
}

#[test]
fn edits_inside_a_subsystem_are_seen_after_coming_back() {
    let mut diagram = Diagram::new(Subsystem::new());
    let a = insert_node(diagram.current_graph_mut(), zero(), plain("A"));
    assert!(diagram.enter(a));
    let inside = insert_node(diagram.current_graph_mut(), zero(), plain("Inside"));
    assert!(diagram.leave());
    assert!(diagram.enter(a));
    assert_eq!(node(diagram.current_graph(), inside).unwrap().name, "Inside");
}

#[test]
fn leaving_the_top_level_does_nothing() {
    let mut diagram = Diagram::new(Subsystem::new());
    assert!(!diagram.leave());
    assert_eq!(diagram.current(), 0);
    assert_eq!(diagram.depth(), 0);
}

#[test]
fn entering_a_missing_node_is_refused() {
    let mut diagram = Diagram::new(Subsystem::new());
    assert!(!diagram.enter(3));
    assert_eq!(diagram.current(), 0);
    assert_eq!(diagram.depth(), 0);
    assert_eq!(diagram.subsystems().len(), 1);
}

#[test]
fn entering_a_subsystem_on_the_way_down_is_refused() {
    let mut diagram = Diagram::new(Subsystem::new());
    let a = insert_node(diagram.current_graph_mut(), zero(), plain("A"));
    assert!(diagram.enter(a));
    let mut back = plain("Back");
    back.subsystem = Some(0);
    let up = insert_node(diagram.current_graph_mut(), zero(), back);
    let mut own = plain("Own");
    own.subsystem = Some(1);
    let itself = insert_node(diagram.current_graph_mut(), zero(), own);
    let mut far = plain("Far");
    far.subsystem = Some(9);
    let nowhere = insert_node(diagram.current_graph_mut(), zero(), far);

    assert!(!diagram.enter(up));
    assert!(!diagram.enter(itself));
    assert!(!diagram.enter(nowhere));
    assert_eq!(diagram.current(), 1);
    assert_eq!(diagram.depth(), 1);
    assert_eq!(diagram.subsystems().len(), 2);
}

#[test]
fn a_selection_of_the_viewed_graph_becomes_a_subsystem_that_can_be_entered() {
    let mut diagram = Diagram::new(Subsystem::new());
    let graph = diagram.current_graph_mut();
    let a = insert_node(
        graph,
        zero(),
        Node {
            name: "A".to_string(),
            inputs: Vec::new(),
            outputs: vec![Output { name: "x".to_string(), kind: PortKind::Normal }],
            subsystem: None,
        },
    );
    let b = insert_node(
        graph,
        zero(),
        Node {
            name: "B".to_string(),
            inputs: vec![Input { name: "y".to_string(), kind: PortKind::Normal }],
            outputs: Vec::new(),
            subsystem: None,
        },
    );
    let wire = Wire { from: OutPort { node: a, output: 0 }, to: InPort { node: b, input: 0 } };
    assert!(connect(graph, wire));

    assert!(diagram.convert_to_subsystem(&Vec::new(), zero()).is_none());
    assert_eq!(diagram.subsystems().len(), 1);

    let made = diagram.convert_to_subsystem(&vec![b], egui::pos2(9.0, 9.0)).unwrap();

    assert_eq!(diagram.current(), 0);
    assert_eq!(diagram.depth(), 0);
    assert_eq!(diagram.subsystems().len(), 2);
    assert_eq!(made.inputs, vec![wire]);
    let collapsed = node(diagram.current_graph(), made.node).unwrap();
    assert_eq!(collapsed.subsystem, Some(1));
    assert_eq!(collapsed.inputs[0].name, "y");
    assert_eq!(
        wires(diagram.current_graph()),
        vec![Wire { from: wire.from, to: InPort { node: made.node, input: 0 } }]
    );

    assert!(diagram.enter(made.node));
    assert_eq!(diagram.current(), 1);
    assert_eq!(node_ids(diagram.current_graph()).len(), 2);
    assert_eq!(node(diagram.current_graph(), made.moved[&b]).unwrap().name, "B");
    assert!(diagram.leave());
    assert_eq!(diagram.current(), 0);
}

#[test]
fn nested_subsystems_are_left_one_level_at_a_time() {
    let mut diagram = Diagram::new(Subsystem::new());
    let a = insert_node(diagram.current_graph_mut(), zero(), plain("A"));
    assert!(diagram.enter(a));
    let b = insert_node(diagram.current_graph_mut(), zero(), plain("B"));
    assert!(diagram.enter(b));
    assert_eq!(diagram.current(), 2);
    assert_eq!(diagram.depth(), 2);
    assert!(diagram.is_wf());
    assert!(diagram.leave());
    assert_eq!(diagram.current(), 1);
    assert_eq!(diagram.depth(), 1);
    assert!(diagram.leave());
    assert_eq!(diagram.current(), 0);
    assert!(!diagram.leave());
    assert!(diagram.is_wf());
}
