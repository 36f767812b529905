use blocko::ai_import::{AiConnectionSpec, AiGraphSchema, AiImportError, AiNodeSpec};
use blocko::debugger::{DebugVm, ExecEffect, Frame, StepKind, MAX_EXEC_STEPS};
use blocko::runner::{ProgramRun, RunRequest};
use blocko::graph::Graph;
use blocko::node::NodeKind;
use blocko::plugin::{plugin_def_for, plugin_registry, PluginConfig, PluginInstance};
use blocko::project::{asset_reference, manifest_for, PackageError, FORMAT_VERSION};
use blocko::text::{split_params, u64_to_decimal};
use blocko::types::{
    plugin_pin_type_to_data_type, CompareOp, Connection, NodeId, PinDataType, PinKind, PinRef, PluginPinType,
};
use blocko::workspace::Workspace;

fn exec_link(from: NodeId, out_index: usize, to: NodeId) -> Connection {
    Connection {
        from: PinRef { node_id: from, kind: PinKind::Output, index: out_index, is_exec: true },
        to: PinRef { node_id: to, kind: PinKind::Input, index: 0, is_exec: true },
    }
}

fn data_link(from: NodeId, to: NodeId, in_index: usize) -> Connection {
    Connection {
        from: PinRef { node_id: from, kind: PinKind::Output, index: 0, is_exec: false },
        to: PinRef { node_id: to, kind: PinKind::Input, index: in_index, is_exec: false },
    }
}

fn build(nodes: Vec<(NodeId, NodeKind)>, wires: Vec<Connection>) -> Graph {
    Graph::from_entries(nodes, wires)
}

fn spec(id: u64, kind: &str) -> AiNodeSpec {
    AiNodeSpec {
        id,
        kind: kind.to_string(),
        number_literal: None,
        compare_op: None,
        variable_name: None,
        function_name: None,
        function_params: None,
    }
}

fn ai_wire(from_node: u64, to_node: u64) -> AiConnectionSpec {
    AiConnectionSpec { from_node, from_index: 0, from_exec: false, to_node, to_index: 0, to_exec: false }
}

#[test]
fn ai_import_remaps_ids() {
    let mut w = Workspace::new();
    w.add_node(NodeKind::Start);
    let mut number = spec(10, "Number");
    number.number_literal = Some("4.5".to_string());
    let schema = AiGraphSchema {
        schema_version: 1,
        source_prompt: Some("print a number".to_string()),
        nodes: vec![number, spec(20, "Print")],
        connections: vec![ai_wire(10, 20)],
    };
    assert_eq!(w.import_ai_graph(&schema).expect("imported"), 2);
    assert_eq!(w.next_id, 3);
    assert!(matches!(w.graph.get(1), Some(NodeKind::Number(v)) if v == "4.5"));
    assert!(matches!(w.graph.get(2), Some(NodeKind::Print)));
    assert_eq!(w.graph.connections, vec![data_link(1, 2, 0)]);
}

#[test]
fn ai_import_reports_every_problem() {
    let mut w = Workspace::new();
    w.add_node(NodeKind::Start);
    let schema = AiGraphSchema {
        schema_version: 1,
        source_prompt: None,
        nodes: vec![spec(1, "Add"), spec(1, "Bogus")],
        connections: vec![ai_wire(1, 5)],
    };
    let errors = w.import_ai_graph(&schema).expect_err("refused");
    let messages: Vec<String> = errors.iter().map(|e| e.message()).collect();
    assert_eq!(
        messages,
        vec![
            "duplicate node id 1 in AI graph".to_string(),
            "connection references missing node 5".to_string(),
            "node 1 has unknown kind \"Bogus\"".to_string(),
        ]
    );
    assert!(matches!(errors[0], AiImportError::DuplicateNodeId(1)));
    assert_eq!(w.next_id, 1);
    assert_eq!(w.graph.nodes.len(), 1);
}

#[test]
fn ai_node_defaults() {
    assert!(matches!(spec(1, "Number").to_node_kind(), Ok(NodeKind::Number(v)) if v == "0.0"));
    assert!(matches!(spec(1, "GetVariable").to_node_kind(), Ok(NodeKind::GetVariable(v)) if v == "x"));
    assert!(matches!(spec(1, "Compare").to_node_kind(), Ok(NodeKind::Compare(CompareOp::GreaterThan))));
    let mut less = spec(1, "Compare");
    less.compare_op = Some("LessThan".to_string());
    assert!(matches!(less.to_node_kind(), Ok(NodeKind::Compare(CompareOp::LessThan))));
    match spec(1, "FunctionDef").to_node_kind() {
        Ok(NodeKind::FunctionDef { name, params }) => {
            assert_eq!(name, "func");
            assert_eq!(params, "");
        }
        other => panic!("unexpected {:?}", other),
    }
    assert!(matches!(spec(4, "number").to_node_kind(), Err(AiImportError::UnknownKind { node_id: 4, .. })));
}

#[test]
fn project_manifest_and_assets() {
    let m = manifest_for("demo", 7);
    assert_eq!(m.format_version, FORMAT_VERSION);
    assert_eq!(m.format_version, 1);
    assert_eq!(m.project_name, "demo");
    assert_eq!(m.entry_graph, "nodes/main.graph.json");
    assert_eq!(m.next_id, 7);
    assert_eq!(asset_reference("logo.png"), "assets/logo.png");
    assert_eq!(PackageError::Io("disk full".to_string()).message(), "IO error: disk full");
    assert_eq!(PackageError::Serde("bad".to_string()).message(), "Serialization error: bad");
}

#[test]
fn layers_follow_dependency_depth() {
    let g = build(
        vec![(1, NodeKind::Start), (2, NodeKind::Print), (3, NodeKind::Number("1.0".to_string())), (4, NodeKind::Print)],
        vec![exec_link(1, 0, 2), data_link(3, 2, 0), exec_link(2, 0, 4), data_link(3, 4, 0)],
    );
    assert_eq!(g.depth_layers(), vec![vec![1, 3], vec![2], vec![4]]);
    let lone = build(vec![(5, NodeKind::Add), (6, NodeKind::Sub)], vec![data_link(5, 5, 0)]);
    assert_eq!(lone.depth_layers(), vec![vec![5, 6]]);
}

#[test]
fn layers_of_a_cycle() {
    let g = build(vec![(1, NodeKind::Add), (2, NodeKind::Add)], vec![data_link(1, 2, 0), data_link(2, 1, 0)]);
    assert_eq!(g.depth_layers(), vec![vec![], vec![2], vec![1]]);
}

#[test]
fn debugger_runs_a_call() {
    let g = build(
        vec![
            (0, NodeKind::Start),
            (1, NodeKind::FunctionCall { name: "f".to_string() }),
            (2, NodeKind::Print),
            (3, NodeKind::FunctionDef { name: "f".to_string(), params: "".to_string() }),
            (4, NodeKind::Return),
        ],
        vec![exec_link(0, 0, 1), exec_link(1, 0, 2), exec_link(3, 0, 4)],
    );
    let mut vm = DebugVm::new(&g);
    assert_eq!(vm.console, vec!["--- Debug session started ---".to_string()]);
    assert_eq!(vm.frames, vec![Frame::Chain { current: Some(1) }]);
    assert!(!vm.finished);

    let s = vm.begin_step();
    assert_eq!(s.kind, StepKind::Exec(1));
    assert_eq!(vm.steps, 1);
    assert_eq!(vm.finish_exec(&g, 1, Some(Some(4))), ExecEffect::Nothing);
    assert_eq!(
        vm.frames,
        vec![Frame::Chain { current: Some(2) }, Frame::Call { call_node: 1 }, Frame::Chain { current: Some(4) }]
    );

    assert_eq!(vm.begin_step().kind, StepKind::Exec(4));
    assert_eq!(vm.finish_exec(&g, 4, None), ExecEffect::ReturnTo(1));
    assert_eq!(vm.frames, vec![Frame::Chain { current: Some(2) }]);

    assert_eq!(vm.begin_step().kind, StepKind::Exec(2));
    assert_eq!(vm.finish_exec(&g, 2, None), ExecEffect::Nothing);
    assert_eq!(vm.current_node, Some(2));

    let end = vm.begin_step();
    assert_eq!(end.kind, StepKind::Finished);
    assert!(vm.finished);
    assert_eq!(vm.console.last().map(|s| s.as_str()), Some("--- Program finished ---"));
    assert_eq!(vm.begin_step().kind, StepKind::Finished);
}

#[test]
fn debugger_unknown_call_and_function_without_return() {
    let g = build(
        vec![(0, NodeKind::Start), (1, NodeKind::FunctionCall { name: "g".to_string() })],
        vec![exec_link(0, 0, 1)],
    );
    let mut vm = DebugVm::new(&g);
    assert_eq!(vm.begin_step().kind, StepKind::Exec(1));
    assert_eq!(vm.finish_exec(&g, 1, None), ExecEffect::ZeroResult(1));
    assert_eq!(vm.console.last().map(|s| s.as_str()), Some("Call to undefined function 'g'"));

    let mut vm2 = DebugVm::new(&g);
    vm2.begin_step();
    vm2.finish_exec(&g, 1, Some(None));
    let s = vm2.begin_step();
    assert_eq!(s.zero_results, vec![1]);
    assert_eq!(s.kind, StepKind::Finished);
}

#[test]
fn debugger_loops() {
    let g = build(
        vec![(0, NodeKind::Start), (1, NodeKind::WhileLoop), (2, NodeKind::Print)],
        vec![exec_link(0, 0, 1), exec_link(1, 0, 2)],
    );
    let mut vm = DebugVm::new(&g);
    assert_eq!(vm.begin_step().kind, StepKind::Exec(1));
    vm.finish_exec(&g, 1, None);
    assert_eq!(vm.begin_step().kind, StepKind::WhileCheck(1));
    vm.finish_while_check(&g, 1, true);
    assert_eq!(vm.begin_step().kind, StepKind::Exec(2));
    vm.finish_exec(&g, 2, None);
    assert_eq!(vm.begin_step().kind, StepKind::WhileCheck(1));
    vm.finish_while_check(&g, 1, false);
    assert_eq!(vm.begin_step().kind, StepKind::Finished);
    assert_eq!(vm.steps, 4);
}

#[test]
fn debugger_without_start_node() {
    let g = build(vec![(5, NodeKind::Print), (3, NodeKind::Print)], vec![]);
    let mut vm = DebugVm::new(&g);
    assert_eq!(vm.console[1], "No Start node found — stepping through 2 Print node(s).");
    assert_eq!(vm.begin_step().kind, StepKind::LegacyPrint(3));
    assert_eq!(vm.current_node, Some(3));
    assert_eq!(vm.begin_step().kind, StepKind::LegacyPrint(5));
    assert_eq!(vm.begin_step().kind, StepKind::Finished);
    assert!(vm.finished);

    let empty = DebugVm::new(&Graph::new());
    assert!(empty.finished);
    assert_eq!(empty.console[1], "No Start node and no Print nodes on canvas.");
}

#[test]
fn node_pin_layout() {
    assert_eq!(NodeKind::Add.title(), "Math (Add)");
    assert_eq!(NodeKind::Branch.input_labels(), vec!["Cond", "Then", "Else"]);
    assert_eq!(
        NodeKind::Branch.input_types(),
        vec![PinDataType::Bool, PinDataType::Number, PinDataType::Number]
    );
    assert_eq!(NodeKind::Print.input_types(), vec![PinDataType::Any]);
    assert_eq!(NodeKind::GetVariable("v".to_string()).output_labels(), vec!["Value"]);
    let group = NodeKind::GroupNode {
        graph_id: 2,
        name: "Grp".to_string(),
        exec_in: vec!["Exec1".to_string()],
        exec_out: vec![],
        data_in: vec![("In1".to_string(), PinDataType::Bool)],
        data_out: vec![],
    };
    assert_eq!(group.title(), "Group");
    assert_eq!(group.title_owned(), "Grp");
    assert_eq!(group.input_labels(), vec![""]);
    assert_eq!(group.input_types(), vec![PinDataType::Bool]);
    let plugin = NodeKind::Plugin(PluginInstance { plugin_id: 0, node_type: 0, config: PluginConfig { values: vec![] } });
    assert_eq!(plugin.title(), "Plugin");
    assert_eq!(plugin.input_types(), vec![PinDataType::Any]);
    let unknown = NodeKind::Plugin(PluginInstance { plugin_id: 9, node_type: 0, config: PluginConfig { values: vec![] } });
    assert_eq!(unknown.title(), "Unknown Plugin Node");
    assert!(unknown.input_labels().is_empty());
}

#[test]
fn plugin_registry_contents() {
    let r = plugin_registry();
    assert!(r.find(0).is_some());
    assert!(r.find(1).is_none());
    let t = r.semantic_type(0).expect("built-in type");
    assert_eq!(t.name, "Any");
    assert_eq!(t.color, (180, 180, 180));
    assert!(r.semantic_type(3).is_none());
    let def = plugin_def_for(&PluginInstance { plugin_id: 0, node_type: 1, config: PluginConfig { values: vec![] } })
        .expect("defined");
    assert_eq!(def.exec_outputs, vec!["Out"]);
    assert_eq!(plugin_pin_type_to_data_type(PluginPinType::Semantic(4)), PinDataType::Semantic(4));
    assert_eq!(plugin_pin_type_to_data_type(PluginPinType::Bool), PinDataType::Bool);
}

#[test]
fn text_helpers() {
    assert_eq!(u64_to_decimal(0), "0");
    assert_eq!(u64_to_decimal(18446744073709551615), "18446744073709551615");
    assert_eq!(split_params(" a ,b,, c "), vec!["a".to_string(), "b".to_string(), "c".to_string()]);
    assert!(split_params("").is_empty());
}

#[test]
fn program_run_calls_and_returns() {
    let g = build(
        vec![
            (0, NodeKind::Start),
            (1, NodeKind::Print),
            (2, NodeKind::FunctionCall { name: "f".to_string() }),
            (3, NodeKind::Print),
            (4, NodeKind::FunctionDef { name: "f".to_string(), params: "".to_string() }),
            (5, NodeKind::Return),
        ],
        vec![exec_link(0, 0, 1), exec_link(1, 0, 2), exec_link(2, 0, 3), exec_link(4, 0, 5)],
    );
    let mut run = ProgramRun::new(1);
    assert_eq!(run.next_step().request, RunRequest::Exec(1));
    assert_eq!(run.finish_exec(&g, 1, None), ExecEffect::Nothing);
    assert_eq!(run.next_step().request, RunRequest::Exec(2));
    assert_eq!(run.finish_exec(&g, 2, Some(Some(5))), ExecEffect::Nothing);
    assert_eq!(
        run.frames,
        vec![Frame::Chain { current: Some(3) }, Frame::Call { call_node: 2 }, Frame::Chain { current: Some(5) }]
    );
    assert_eq!(run.next_step().request, RunRequest::Exec(5));
    assert_eq!(run.finish_exec(&g, 5, None), ExecEffect::ReturnTo(2));
    assert_eq!(run.next_step().request, RunRequest::Exec(3));
    run.finish_exec(&g, 3, None);
    let end = run.next_step();
    assert_eq!(end.request, RunRequest::Finished);
    assert!(end.zero_results.is_empty());
    assert_eq!(run.steps, 4);
}

#[test]
fn program_run_counts_loop_rounds() {
    let g = build(
        vec![(0, NodeKind::Start), (1, NodeKind::WhileLoop), (2, NodeKind::Print)],
        vec![exec_link(0, 0, 1), exec_link(1, 0, 2)],
    );
    let mut run = ProgramRun::new(1);
    assert_eq!(run.next_step().request, RunRequest::Exec(1));
    run.finish_exec(&g, 1, None);
    assert_eq!(run.next_step().request, RunRequest::LoopCondition(1));
    run.finish_loop_condition(&g, 1, true);
    assert_eq!(run.next_step().request, RunRequest::Exec(2));
    run.finish_exec(&g, 2, None);
    assert_eq!(run.next_step().request, RunRequest::LoopCondition(1));
    assert_eq!(run.steps, 3);
    run.finish_loop_condition(&g, 1, false);
    assert_eq!(run.next_step().request, RunRequest::Finished);
}

#[test]
fn program_run_stops_at_the_step_limit() {
    let empty_loop = build(vec![(0, NodeKind::Start), (1, NodeKind::WhileLoop)], vec![exec_link(0, 0, 1)]);
    let mut run = ProgramRun::new(1);
    assert_eq!(run.next_step().request, RunRequest::Exec(1));
    run.finish_exec(&empty_loop, 1, None);
    let mut checks = 0;
    loop {
        match run.next_step().request {
            RunRequest::LoopCondition(l) => {
                checks += 1;
                run.finish_loop_condition(&empty_loop, l, true);
            }
            other => {
                assert_eq!(other, RunRequest::StepLimit);
                break;
            }
        }
    }
    assert_eq!(checks, MAX_EXEC_STEPS - 1);
    assert_eq!(run.next_step().request, RunRequest::Finished);

    let busy_body = Graph::from_entries(
        vec![(0, NodeKind::Start), (1, NodeKind::WhileLoop), (2, NodeKind::Print)],
        vec![exec_link(0, 0, 1), exec_link(1, 0, 2), exec_link(2, 0, 2)],
    );
    let mut run = ProgramRun::new(1);
    let mut limits = 0;
    let mut execs = 0;
    loop {
        match run.next_step().request {
            RunRequest::Finished => break,
            RunRequest::StepLimit => limits += 1,
            RunRequest::Exec(id) => {
                execs += 1;
                run.finish_exec(&busy_body, id, None);
            }
            RunRequest::LoopCondition(l) => run.finish_loop_condition(&busy_body, l, true),
        }
    }
    assert_eq!(execs, MAX_EXEC_STEPS);
    assert_eq!(limits, 2);
    assert_eq!(run.steps, MAX_EXEC_STEPS + 1);
}
