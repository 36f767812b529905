use blocko::graph::Graph;
use blocko::node::NodeKind;
use blocko::types::{Connection, GraphKind, NodeId, PinDataType, PinKind, PinRef, ROOT_GRAPH_ID};
use blocko::workspace::Workspace;
use blocko::playback::{after_running_step, PlaybackMode};

fn out_pin(node_id: NodeId, index: usize, is_exec: bool) -> PinRef {
    PinRef { node_id, kind: PinKind::Output, index, is_exec }
}

fn in_pin(node_id: NodeId, index: usize, is_exec: bool) -> PinRef {
    PinRef { node_id, kind: PinKind::Input, index, is_exec }
}

fn wire(from: PinRef, to: PinRef) -> Connection {
    Connection { from, to }
}

#[test]
fn insert_keeps_ids_sorted_and_replaces() {
    let mut g = Graph::new();
    g.insert_node(5, NodeKind::Add);
    g.insert_node(2, NodeKind::Print);
    g.insert_node(9, NodeKind::Start);
    g.insert_node(5, NodeKind::Sub);
    let ids: Vec<NodeId> = g.nodes.iter().map(|n| n.id).collect();
    assert_eq!(ids, vec![2, 5, 9]);
    assert!(matches!(g.get(5), Some(NodeKind::Sub)));
    assert!(g.get(7).is_none());
    assert_eq!(g.position_of(9), Some(2));
    assert_eq!(g.position_of(3), None);
}

#[test]
fn connect_replaces_the_wire_into_an_input() {
    let mut g = Graph::new();
    g.insert_node(1, NodeKind::Number("1.0".to_string()));
    g.insert_node(2, NodeKind::Number("2.0".to_string()));
    g.insert_node(3, NodeKind::Add);
    g.connect(wire(out_pin(1, 0, false), in_pin(3, 0, false)));
    g.connect(wire(out_pin(1, 0, false), in_pin(3, 1, false)));
    g.connect(wire(out_pin(2, 0, false), in_pin(3, 0, false)));
    assert_eq!(g.connections.len(), 2);
    assert_eq!(g.find_source_for_input(3, 0), Some(out_pin(2, 0, false)));
    assert_eq!(g.find_source_for_input(3, 1), Some(out_pin(1, 0, false)));
    assert_eq!(g.find_source_for_input(3, 2), None);
    assert!(g.is_input_connected(in_pin(3, 1, false)));
    assert!(!g.is_input_connected(in_pin(3, 2, false)));
}

#[test]
fn removing_a_node_drops_its_wires() {
    let mut g = Graph::new();
    g.insert_node(1, NodeKind::Start);
    g.insert_node(2, NodeKind::Print);
    g.insert_node(3, NodeKind::Print);
    g.connect(wire(out_pin(1, 0, true), in_pin(2, 0, true)));
    g.connect(wire(out_pin(2, 0, true), in_pin(3, 0, true)));
    g.connect(wire(out_pin(1, 1, true), in_pin(3, 0, false)));
    g.remove_connections_for(2);
    assert_eq!(g.connections, vec![wire(out_pin(1, 1, true), in_pin(3, 0, false))]);
    assert_eq!(g.nodes.len(), 3);
}

#[test]
fn exec_targets_and_start_node() {
    let mut g = Graph::new();
    g.insert_node(4, NodeKind::Start);
    g.insert_node(2, NodeKind::Start);
    g.insert_node(3, NodeKind::Print);
    g.insert_node(7, NodeKind::Print);
    g.connect(wire(out_pin(2, 0, true), in_pin(3, 0, true)));
    assert_eq!(g.find_start_node(), Some(2));
    assert_eq!(g.find_exec_target(2, 0), Some(3));
    assert_eq!(g.find_exec_target(2, 1), None);
    assert_eq!(g.print_node_ids(), vec![3, 7]);
    assert_eq!(Graph::new().find_start_node(), None);
}

#[test]
fn collect_functions_lists_definitions_in_id_order() {
    let mut g = Graph::new();
    g.insert_node(8, NodeKind::FunctionDef { name: "b".to_string(), params: "x, , y ".to_string() });
    g.insert_node(3, NodeKind::FunctionDef { name: "a".to_string(), params: "".to_string() });
    g.insert_node(5, NodeKind::Print);
    let fs = g.collect_functions();
    assert_eq!(fs.len(), 2);
    assert_eq!(fs[0].name, "a");
    assert!(fs[0].params.is_empty());
    assert_eq!(fs[1].name, "b");
    assert_eq!(fs[1].params, vec!["x".to_string(), "y".to_string()]);
}

#[test]
fn from_entries_keeps_the_last_of_a_repeated_id() {
    let g = Graph::from_entries(
        vec![(4, NodeKind::Add), (1, NodeKind::Print), (4, NodeKind::Mul)],
        vec![wire(out_pin(1, 0, true), in_pin(4, 0, true))],
    );
    let ids: Vec<NodeId> = g.nodes.iter().map(|n| n.id).collect();
    assert_eq!(ids, vec![1, 4]);
    assert!(matches!(g.get(4), Some(NodeKind::Mul)));
    assert_eq!(g.connections.len(), 1);
}

#[test]
fn fresh_workspace() {
    let w = Workspace::new();
    assert_eq!(w.active_graph_id(), ROOT_GRAPH_ID);
    assert_eq!(w.graph_stack, vec![ROOT_GRAPH_ID]);
    assert_eq!(w.graph_names.get(&ROOT_GRAPH_ID).map(|s| s.as_str()), Some("Main"));
    assert_eq!(w.next_id, 0);
    assert_eq!(w.next_graph_id, 1);
    assert!(w.graph.nodes.is_empty());
}

#[test]
fn add_node_hands_out_fresh_ids() {
    let mut w = Workspace::new();
    let a = w.add_node(NodeKind::Start);
    let b = w.add_node(NodeKind::Print);
    assert_eq!((a, b), (0, 1));
    assert_eq!(w.next_id, 2);
    assert!(matches!(w.graph.get(1), Some(NodeKind::Print)));
}

#[test]
fn selection_toggles() {
    let mut w = Workspace::new();
    w.toggle_selection(3, false);
    w.toggle_selection(4, true);
    assert_eq!(w.selection.len(), 2);
    w.toggle_selection(3, true);
    assert!(!w.selection.contains(&3));
    assert!(w.selection.contains(&4));
    w.toggle_selection(3, true);
    w.toggle_selection(3, true);
    assert_eq!(w.selection.len(), 1);
    w.toggle_selection(9, false);
    assert_eq!(w.selection.len(), 1);
    assert!(w.selection.contains(&9));
}

#[test]
fn grouping_needs_two_nodes() {
    let mut w = Workspace::new();
    let a = w.add_node(NodeKind::Add);
    w.toggle_selection(a, false);
    assert!(w.group_selected_nodes("G".to_string()).is_none());
    assert_eq!(w.graph.nodes.len(), 1);
    assert_eq!(w.next_graph_id, 1);
}

#[test]
fn grouping_moves_nodes_and_rewires() {
    let mut w = Workspace::new();
    let n = w.add_node(NodeKind::Number("1.0".to_string()));
    let add = w.add_node(NodeKind::Add);
    let print = w.add_node(NodeKind::Print);
    w.graph.connect(wire(out_pin(n, 0, false), in_pin(add, 0, false)));
    w.graph.connect(wire(out_pin(add, 0, false), in_pin(print, 0, false)));
    w.toggle_selection(n, false);
    w.toggle_selection(add, true);
    let outcome = w.group_selected_nodes("Sum".to_string()).expect("grouped");
    assert_eq!(outcome.group_id, 3);
    assert_eq!(outcome.graph_id, 1);
    assert_eq!(outcome.ifaces, vec![(4, 0, false)]);
    assert_eq!(w.next_id, 5);
    assert_eq!(w.next_graph_id, 2);
    assert!(w.selection.is_empty());

    let ids: Vec<NodeId> = w.graph.nodes.iter().map(|n| n.id).collect();
    assert_eq!(ids, vec![print, 3]);
    match w.graph.get(3) {
        Some(NodeKind::GroupNode { graph_id, name, exec_in, exec_out, data_in, data_out }) => {
            assert_eq!(*graph_id, 1);
            assert_eq!(name, "Sum");
            assert!(exec_in.is_empty() && exec_out.is_empty() && data_in.is_empty());
            assert_eq!(data_out, &vec![("Out1".to_string(), PinDataType::Number)]);
        }
        other => panic!("unexpected {:?}", other),
    }
    assert_eq!(w.graph.connections, vec![wire(out_pin(3, 0, false), in_pin(print, 0, false))]);

    let inner = w.subgraphs.get(&1).expect("parked group");
    let inner_ids: Vec<NodeId> = inner.nodes.iter().map(|n| n.id).collect();
    assert_eq!(inner_ids, vec![n, add, 4]);
    match inner.get(4) {
        Some(NodeKind::GroupOutput { slot, label, is_exec, data_type }) => {
            assert_eq!(*slot, 0);
            assert_eq!(label, "Out1");
            assert!(!*is_exec);
            assert_eq!(*data_type, PinDataType::Number);
        }
        other => panic!("unexpected {:?}", other),
    }
    assert_eq!(
        inner.connections,
        vec![
            wire(out_pin(n, 0, false), in_pin(add, 0, false)),
            wire(out_pin(add, 0, false), in_pin(4, 0, false)),
        ]
    );
    assert_eq!(w.graph_kinds.get(&1), Some(&GraphKind::Group));
    assert_eq!(w.graph_names.get(&1).map(|s| s.as_str()), Some("Sum"));
    let (ins, outs) = w.graph_boundary.get(&1).expect("boundary");
    assert!(ins.is_empty());
    assert_eq!(outs.len(), 1);
    assert_eq!(outs[0].label, "Out1");
}

#[test]
fn grouping_labels_inputs_by_kind() {
    let mut w = Workspace::new();
    let start = w.add_node(NodeKind::Start);
    let x = w.add_node(NodeKind::Number("3.0".to_string()));
    let p1 = w.add_node(NodeKind::Print);
    let p2 = w.add_node(NodeKind::Print);
    w.graph.connect(wire(out_pin(start, 0, true), in_pin(p1, 0, true)));
    w.graph.connect(wire(out_pin(x, 0, false), in_pin(p1, 0, false)));
    w.graph.connect(wire(out_pin(p1, 0, true), in_pin(p2, 0, true)));
    w.graph.connect(wire(out_pin(x, 0, false), in_pin(p2, 0, false)));
    w.toggle_selection(p1, false);
    w.toggle_selection(p2, true);
    assert_eq!(w.crossing_count(), 3);
    let outcome = w.group_selected_nodes("Prints".to_string()).expect("grouped");
    assert_eq!(outcome.group_id, 4);
    assert_eq!(outcome.ifaces, vec![(5, 0, true), (6, 0, true), (7, 1, true)]);
    let (ins, outs) = w.graph_boundary.get(&outcome.graph_id).expect("boundary");
    let labels: Vec<&str> = ins.iter().map(|p| p.label.as_str()).collect();
    assert_eq!(labels, vec!["Exec1", "In1", "In2"]);
    assert!(outs.is_empty());
    assert_eq!(
        w.graph.connections,
        vec![
            wire(out_pin(start, 0, true), in_pin(4, 0, true)),
            wire(out_pin(x, 0, false), in_pin(4, 0, false)),
            wire(out_pin(x, 0, false), in_pin(4, 1, false)),
        ]
    );
}

#[test]
fn entering_and_leaving_a_sub_graph() {
    let mut w = Workspace::new();
    let a = w.add_node(NodeKind::Start);
    w.enter_subgraph(7);
    assert_eq!(w.active_graph_id(), 7);
    assert!(w.graph.nodes.is_empty());
    assert!(w.subgraphs.contains_key(&ROOT_GRAPH_ID));
    w.add_node(NodeKind::Print);
    w.navigate_to_breadcrumb(0);
    assert_eq!(w.graph_stack, vec![ROOT_GRAPH_ID]);
    assert_eq!(w.graph.nodes.len(), 1);
    assert!(matches!(w.graph.get(a), Some(NodeKind::Start)));
    assert_eq!(w.subgraphs.get(&7).map(|g| g.nodes.len()), Some(1));
    w.navigate_to_breadcrumb(3);
    assert_eq!(w.graph_stack, vec![ROOT_GRAPH_ID]);
}

#[test]
fn functions_get_parameters_and_call_nodes() {
    let mut w = Workspace::new();
    assert_eq!(w.add_function_param("n".to_string()), None);
    let f = w.create_function("square".to_string());
    assert_eq!(f, 1);
    assert_eq!(w.active_graph_id(), f);
    assert_eq!(w.graph_kinds.get(&f), Some(&GraphKind::Function));
    assert_eq!(w.add_function_param("n".to_string()), Some((0, 0)));
    assert_eq!(w.add_function_param("m".to_string()), Some((1, 1)));
    match w.graph.get(1) {
        Some(NodeKind::GroupInput { slot, label, is_exec, data_type }) => {
            assert_eq!((*slot, label.as_str(), *is_exec, *data_type), (1, "m", false, PinDataType::Number));
        }
        other => panic!("unexpected {:?}", other),
    }
    match w.build_function_call_node(f) {
        NodeKind::GroupNode { graph_id, name, exec_in, exec_out, data_in, data_out } => {
            assert_eq!(graph_id, f);
            assert_eq!(name, "square");
            assert!(exec_in.is_empty() && exec_out.is_empty());
            assert_eq!(
                data_in,
                vec![("n".to_string(), PinDataType::Number), ("m".to_string(), PinDataType::Number)]
            );
            assert_eq!(data_out, vec![("Result".to_string(), PinDataType::Number)]);
        }
        other => panic!("unexpected {:?}", other),
    }
    match w.build_function_call_node(42) {
        NodeKind::GroupNode { name, data_in, data_out, .. } => {
            assert_eq!(name, "Function");
            assert!(data_in.is_empty() && data_out.is_empty());
        }
        other => panic!("unexpected {:?}", other),
    }
}

#[test]
fn call_sites_follow_a_new_parameter() {
    let mut w = Workspace::new();
    let f = w.create_function("inc".to_string());
    let call = w.build_function_call_node(f);
    let site = w.add_node(call);
    w.add_function_param("v".to_string());
    match w.graph.get(site) {
        Some(NodeKind::GroupNode { data_in, .. }) => {
            assert_eq!(data_in, &vec![("v".to_string(), PinDataType::Number)]);
        }
        other => panic!("unexpected {:?}", other),
    }
}

#[test]
fn function_definitions_sorted_by_name() {
    let mut w = Workspace::new();
    let z = w.create_function("zeta".to_string());
    w.navigate_to_breadcrumb(0);
    let a = w.create_function("alpha".to_string());
    w.navigate_to_breadcrumb(0);
    w.enter_subgraph(9);
    let defs = w.function_definitions();
    assert_eq!(defs, vec![(a, "alpha".to_string()), (z, "zeta".to_string())]);
}

#[test]
fn load_graph_replaces_the_open_graph() {
    let mut w = Workspace::new();
    w.add_node(NodeKind::Start);
    w.load_graph(vec![(10, NodeKind::Print), (4, NodeKind::Start)], vec![], 11);
    let ids: Vec<NodeId> = w.graph.nodes.iter().map(|n| n.id).collect();
    assert_eq!(ids, vec![4, 10]);
    assert_eq!(w.next_id, 11);
}

#[test]
fn new_parameters_reach_calls_in_parked_graphs() {
    let mut w = Workspace::new();
    let f = w.create_function("scale".to_string());
    w.navigate_to_breadcrumb(0);
    let call = w.build_function_call_node(f);
    let site = w.add_node(call);
    w.enter_subgraph(f);
    assert_eq!(w.add_function_param("k".to_string()), Some((1, 0)));
    let root = w.subgraphs.get(&ROOT_GRAPH_ID).expect("root parked");
    match root.get(site) {
        Some(NodeKind::GroupNode { data_in, data_out, .. }) => {
            assert_eq!(data_in, &vec![("k".to_string(), PinDataType::Number)]);
            assert_eq!(data_out, &vec![("Result".to_string(), PinDataType::Number)]);
        }
        other => panic!("unexpected {:?}", other),
    }
}

#[test]
fn toggling_keeps_graph_registrations() {
    let mut w = Workspace::new();
    let f = w.create_function("g".to_string());
    w.toggle_selection(5, false);
    w.toggle_selection(5, true);
    assert!(w.selection.is_empty());
    assert_eq!(w.graph_kinds.get(&f), Some(&GraphKind::Function));
    assert_eq!(w.graph_boundary.get(&f).map(|b| b.1.len()), Some(1));
}

#[test]
fn playback_after_a_running_step() {
    let mut bps = std::collections::HashSet::new();
    bps.insert(7u64);
    assert_eq!(after_running_step(true, Some(7), &bps), PlaybackMode::Stopped);
    assert_eq!(after_running_step(false, Some(7), &bps), PlaybackMode::Paused);
    assert_eq!(after_running_step(false, Some(8), &bps), PlaybackMode::Running);
    assert_eq!(after_running_step(false, None, &bps), PlaybackMode::Running);
}
