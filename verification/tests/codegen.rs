use blocko::graph::Graph;
use blocko::node::NodeKind;
use blocko::plugin::{PluginConfig, PluginInstance};
use blocko::types::{CompareOp, Connection, NodeId, PinKind, PinRef, TargetLanguage};

fn exec_wire(from: NodeId, out_index: usize, to: NodeId) -> Connection {
    Connection {
        from: PinRef { node_id: from, kind: PinKind::Output, index: out_index, is_exec: true },
        to: PinRef { node_id: to, kind: PinKind::Input, index: 0, is_exec: true },
    }
}

fn data_wire(from: NodeId, to: NodeId, in_index: usize) -> Connection {
    Connection {
        from: PinRef { node_id: from, kind: PinKind::Output, index: 0, is_exec: false },
        to: PinRef { node_id: to, kind: PinKind::Input, index: in_index, is_exec: false },
    }
}

fn num(v: &str) -> NodeKind {
    NodeKind::Number(v.to_string())
}

fn graph_of(nodes: Vec<(NodeId, NodeKind)>, wires: Vec<Connection>) -> Graph {
    let mut g = Graph::new();
    for (id, kind) in nodes {
        g.insert_node(id, kind);
    }
    for w in wires {
        g.connect(w);
    }
    g
}

fn code(g: &Graph, lang: TargetLanguage) -> String {
    assert!(g.loops_well_nested());
    g.generate_code_for(lang)
}

/// Start -> x = 2.0 + 3.0 -> print(x)
fn sum_program() -> Graph {
    graph_of(
        vec![
            (0, NodeKind::Start),
            (1, NodeKind::SetVariable("x".to_string())),
            (2, NodeKind::Add),
            (3, num("2.0")),
            (4, num("3.0")),
            (5, NodeKind::Print),
            (6, NodeKind::GetVariable("x".to_string())),
        ],
        vec![
            exec_wire(0, 0, 1),
            data_wire(3, 2, 0),
            data_wire(4, 2, 1),
            data_wire(2, 1, 0),
            exec_wire(1, 0, 5),
            data_wire(6, 5, 0),
        ],
    )
}

#[test]
fn empty_graph_placeholders() {
    let g = Graph::new();
    assert_eq!(
        code(&g, TargetLanguage::Python),
        "# Your generated code will appear here.\n# Add Start, Set Variable, Print, and While Loop nodes to see Python code."
    );
    assert_eq!(
        code(&g, TargetLanguage::Rust),
        "fn main() {\n    // Your generated code will appear here.\n    // Add Start, Set Variable, Print, and While Loop nodes.\n}"
    );
    assert_eq!(
        code(&g, TargetLanguage::JavaScript),
        "// Your generated code will appear here.\n// Add Start, Set Variable, Print, and While Loop nodes to see JavaScript code."
    );
    assert_eq!(
        code(&g, TargetLanguage::Cpp),
        "#include <iostream>\n\nint main() {\n    // Your generated code will appear here.\n    // Add Start, Set Variable, Print, and While Loop nodes.\n    return 0;\n}"
    );
}

#[test]
fn sum_program_in_python() {
    assert_eq!(
        code(&sum_program(), TargetLanguage::Python),
        "num_0 = 2.0\nnum_1 = 3.0\nadd_0 = num_0 + num_1\nx = add_0\nprint(x)"
    );
}

#[test]
fn sum_program_in_rust() {
    assert_eq!(
        code(&sum_program(), TargetLanguage::Rust),
        "fn main() {\n    let num_0 = 2.0;\n    let num_1 = 3.0;\n    let add_0 = num_0 + num_1;\n    let mut x = add_0;\n    println!(\"{}\", x);\n}"
    );
}

#[test]
fn sum_program_in_javascript() {
    assert_eq!(
        code(&sum_program(), TargetLanguage::JavaScript),
        "let num_0 = 2.0;\nlet num_1 = 3.0;\nlet add_0 = num_0 + num_1;\nlet x = add_0;\nconsole.log(x);"
    );
}

#[test]
fn sum_program_in_cpp() {
    assert_eq!(
        code(&sum_program(), TargetLanguage::Cpp),
        "#include <iostream>\n\nint main() {\n    auto num_0 = 2.0;\n    auto num_1 = 3.0;\n    auto add_0 = num_0 + num_1;\n    auto x = add_0;\n    std::cout << x << std::endl;\n    return 0;\n}"
    );
}

#[test]
fn reassignment_declares_once() {
    let g = graph_of(
        vec![
            (0, NodeKind::Start),
            (1, NodeKind::SetVariable("x".to_string())),
            (2, num("1.0")),
            (3, NodeKind::SetVariable("x".to_string())),
            (4, num("2.0")),
        ],
        vec![exec_wire(0, 0, 1), data_wire(2, 1, 0), exec_wire(1, 0, 3), data_wire(4, 3, 0)],
    );
    assert_eq!(
        code(&g, TargetLanguage::Rust),
        "fn main() {\n    let num_0 = 1.0;\n    let mut x = num_0;\n    let num_1 = 2.0;\n    x = num_1;\n}"
    );
    assert_eq!(
        code(&g, TargetLanguage::JavaScript),
        "let num_0 = 1.0;\nlet x = num_0;\nlet num_1 = 2.0;\nx = num_1;"
    );
    assert_eq!(code(&g, TargetLanguage::Python), "num_0 = 1.0\nx = num_0\nnum_1 = 2.0\nx = num_1");
}

/// Start -> i = 0.0 -> while i < 3.0 { print(i) }
fn counting_loop() -> Graph {
    graph_of(
        vec![
            (0, NodeKind::Start),
            (1, NodeKind::SetVariable("i".to_string())),
            (2, num("0.0")),
            (3, NodeKind::WhileLoop),
            (4, NodeKind::Compare(CompareOp::LessThan)),
            (5, NodeKind::GetVariable("i".to_string())),
            (6, num("3.0")),
            (7, NodeKind::Print),
        ],
        vec![
            exec_wire(0, 0, 1),
            data_wire(2, 1, 0),
            exec_wire(1, 0, 3),
            data_wire(5, 4, 0),
            data_wire(6, 4, 1),
            data_wire(4, 3, 0),
            exec_wire(3, 0, 7),
            data_wire(5, 7, 0),
        ],
    )
}

#[test]
fn while_loop_in_python() {
    assert_eq!(
        code(&counting_loop(), TargetLanguage::Python),
        "num_0 = 0.0\ni = num_0\nwhile True:\n    num_1 = 3.0\n    cmp_0 = i < num_1\n    if not (cmp_0):\n        break\n    print(i)"
    );
}

#[test]
fn while_loop_in_rust() {
    assert_eq!(
        code(&counting_loop(), TargetLanguage::Rust),
        "fn main() {\n    let num_0 = 0.0;\n    let mut i = num_0;\n    loop {\n        let num_1 = 3.0;\n        let cmp_0 = i < num_1;\n        if !(cmp_0) { break; }\n        println!(\"{}\", i);\n    }\n}"
    );
}

#[test]
fn while_loop_in_javascript() {
    assert_eq!(
        code(&counting_loop(), TargetLanguage::JavaScript),
        "let num_0 = 0.0;\nlet i = num_0;\nwhile (true) {\n  let num_1 = 3.0;\n  let cmp_0 = i < num_1;\n  if (!(cmp_0)) break;\n  console.log(i);\n}"
    );
}

#[test]
fn while_loop_in_cpp() {
    assert_eq!(
        code(&counting_loop(), TargetLanguage::Cpp),
        "#include <iostream>\n\nint main() {\n    auto num_0 = 0.0;\n    auto i = num_0;\n    while (true) {\n        auto num_1 = 3.0;\n        auto cmp_0 = i < num_1;\n        if (!(cmp_0)) break;\n        std::cout << i << std::endl;\n    }\n    return 0;\n}"
    );
}

/// Start -> print(if 4.0 > 5.0 { 4.0 } else { 5.0 })
fn branch_program() -> Graph {
    graph_of(
        vec![
            (0, NodeKind::Start),
            (1, NodeKind::Print),
            (2, NodeKind::Branch),
            (3, NodeKind::Compare(CompareOp::GreaterThan)),
            (4, num("4.0")),
            (5, num("5.0")),
        ],
        vec![
            exec_wire(0, 0, 1),
            data_wire(2, 1, 0),
            data_wire(3, 2, 0),
            data_wire(4, 2, 1),
            data_wire(5, 2, 2),
            data_wire(4, 3, 0),
            data_wire(5, 3, 1),
        ],
    )
}

#[test]
fn branch_reuses_operands() {
    let g = branch_program();
    assert_eq!(
        code(&g, TargetLanguage::Python),
        "num_0 = 4.0\nnum_1 = 5.0\ncmp_0 = num_0 > num_1\nif cmp_0:\n    branch_0 = num_0\nelse:\n    branch_0 = num_1\nprint(branch_0)"
    );
    assert_eq!(
        code(&g, TargetLanguage::JavaScript),
        "let num_0 = 4.0;\nlet num_1 = 5.0;\nlet cmp_0 = num_0 > num_1;\nlet branch_0;\nif (cmp_0) {\n  branch_0 = num_0;\n} else {\n  branch_0 = num_1;\n}\nconsole.log(branch_0);"
    );
    assert_eq!(
        code(&g, TargetLanguage::Rust),
        "fn main() {\n    let num_0 = 4.0;\n    let num_1 = 5.0;\n    let cmp_0 = num_0 > num_1;\n    let branch_0 = if cmp_0 {\n        num_0\n    } else {\n        num_1\n    };\n    println!(\"{}\", branch_0);\n}"
    );
}

#[test]
fn comparison_and_subtraction_share_a_counter() {
    let g = graph_of(
        vec![
            (0, NodeKind::Start),
            (1, NodeKind::Print),
            (2, NodeKind::Compare(CompareOp::EqualTo)),
            (3, num("1.0")),
            (4, num("2.0")),
            (5, NodeKind::Print),
            (6, NodeKind::Sub),
        ],
        vec![
            exec_wire(0, 0, 1),
            data_wire(2, 1, 0),
            data_wire(3, 2, 0),
            data_wire(4, 2, 1),
            exec_wire(1, 0, 5),
            data_wire(6, 5, 0),
            data_wire(4, 6, 0),
            data_wire(3, 6, 1),
        ],
    );
    assert_eq!(
        code(&g, TargetLanguage::Python),
        "num_0 = 1.0\nnum_1 = 2.0\ncmp_0 = num_0 == num_1\nprint(cmp_0)\nsub_1 = num_1 - num_0\nprint(sub_1)"
    );
}

#[test]
fn logic_nodes() {
    let g = graph_of(
        vec![
            (0, NodeKind::Start),
            (1, NodeKind::Print),
            (2, NodeKind::Not),
            (3, NodeKind::And),
            (4, NodeKind::GetVariable("a".to_string())),
            (5, NodeKind::GetVariable("b".to_string())),
        ],
        vec![
            exec_wire(0, 0, 1),
            data_wire(2, 1, 0),
            data_wire(3, 2, 0),
            data_wire(4, 3, 0),
            data_wire(5, 3, 1),
        ],
    );
    assert_eq!(code(&g, TargetLanguage::Python), "and_0 = a and b\nnot_1 = not and_0\nprint(not_1)");
    assert_eq!(
        code(&g, TargetLanguage::Cpp),
        "#include <iostream>\n\nint main() {\n    auto and_0 = a && b;\n    auto not_1 = !and_0;\n    std::cout << not_1 << std::endl;\n    return 0;\n}"
    );
}

#[test]
fn function_definition_and_return() {
    let g = graph_of(
        vec![
            (0, NodeKind::FunctionDef { name: "sum2".to_string(), params: "a, b".to_string() }),
            (1, NodeKind::Return),
            (2, NodeKind::Add),
            (3, NodeKind::GetVariable("a".to_string())),
            (4, NodeKind::GetVariable("b".to_string())),
        ],
        vec![exec_wire(0, 0, 1), data_wire(2, 1, 0), data_wire(3, 2, 0), data_wire(4, 2, 1)],
    );
    assert_eq!(code(&g, TargetLanguage::Python), "def sum2(a, b):\n    add_0 = a + b\n    return add_0\n");
    assert_eq!(
        code(&g, TargetLanguage::Rust),
        "fn sum2(a: f64, b: f64) -> f64 {\n    let add_0 = a + b;\n    return add_0;\n    return 0.0;\n}\n\nfn main() {\n}"
    );
    assert_eq!(
        code(&g, TargetLanguage::JavaScript),
        "function sum2(a, b) {\n  let add_0 = a + b;\n  return add_0;\n}\n"
    );
    assert_eq!(
        code(&g, TargetLanguage::Cpp),
        "#include <iostream>\n\ndouble sum2(double a, double b) {\n    auto add_0 = a + b;\n    return add_0;\n    return 0.0;\n}\n\nint main() {\n    return 0;\n}"
    );
}

#[test]
fn empty_function_body_passes() {
    let g = graph_of(
        vec![(0, NodeKind::FunctionDef { name: "noop".to_string(), params: " , ".to_string() })],
        vec![],
    );
    assert_eq!(code(&g, TargetLanguage::Python), "def noop():\n    pass\n");
}

#[test]
fn function_call_with_missing_argument() {
    let g = graph_of(
        vec![(0, NodeKind::Start), (1, NodeKind::FunctionCall { name: "f".to_string() }), (2, num("1.0"))],
        vec![exec_wire(0, 0, 1), data_wire(2, 1, 0)],
    );
    assert_eq!(code(&g, TargetLanguage::Python), "num_0 = 1.0\ncall_0 = f(num_0, 0.0)");
    assert_eq!(
        code(&g, TargetLanguage::Rust),
        "fn main() {\n    let num_0 = 1.0;\n    let call_0 = f(num_0, 0.0);\n}"
    );
}

#[test]
fn unconnected_set_variable_gets_zero() {
    let g = graph_of(
        vec![(0, NodeKind::Start), (1, NodeKind::SetVariable("y".to_string()))],
        vec![exec_wire(0, 0, 1)],
    );
    assert_eq!(code(&g, TargetLanguage::Python), "y = 0.0");
}

#[test]
fn plugin_node_emits_stub() {
    let inst = PluginInstance { plugin_id: 0, node_type: 0, config: PluginConfig { values: vec![] } };
    let g = graph_of(
        vec![(0, NodeKind::Start), (1, NodeKind::Plugin(inst)), (2, num("5.0"))],
        vec![exec_wire(0, 0, 1), data_wire(2, 1, 0)],
    );
    assert_eq!(code(&g, TargetLanguage::Python), "num_0 = 5.0\n// Plugin plugin stub");
}

#[test]
fn print_without_start_node() {
    let g = graph_of(
        vec![(3, NodeKind::Print), (5, NodeKind::Print), (6, NodeKind::Add), (7, num("1.5"))],
        vec![data_wire(7, 5, 0)],
    );
    assert_eq!(
        code(&g, TargetLanguage::Python),
        "# Print node 3 has no input connected\nnum_0 = 1.5\nprint(num_0)"
    );
    let g2 = graph_of(
        vec![(1, NodeKind::Print), (2, NodeKind::Add)],
        vec![data_wire(2, 1, 0)],
    );
    assert_eq!(code(&g2, TargetLanguage::Python), "# Print node 1 has a cycle or missing input");
}

#[test]
fn cyclic_expression_is_reported() {
    let g = graph_of(
        vec![(0, NodeKind::Start), (1, NodeKind::Print), (2, NodeKind::Add), (3, num("1.0"))],
        vec![exec_wire(0, 0, 1), data_wire(2, 1, 0), data_wire(2, 2, 0), data_wire(3, 2, 1)],
    );
    assert_eq!(code(&g, TargetLanguage::Python), "# Print node 1 has a cycle or missing input");
    assert_eq!(
        code(&g, TargetLanguage::Rust),
        "fn main() {\n    // Print node 1 has a cycle or missing input\n}"
    );
}

#[test]
fn cyclic_exec_chain_is_cut() {
    let g = Graph::from_entries(
        vec![(0, NodeKind::Start), (1, NodeKind::Print), (2, NodeKind::GetVariable("v".to_string()))],
        vec![exec_wire(0, 0, 1), data_wire(2, 1, 0), exec_wire(1, 0, 1)],
    );
    let py = code(&g, TargetLanguage::Python);
    let lines: Vec<&str> = py.split('\n').collect();
    assert_eq!(lines.len(), 5001);
    assert_eq!(lines[0], "print(v)");
    assert_eq!(lines[4999], "print(v)");
    assert_eq!(lines[5000], "# execution chain too long or cyclic, stopped");
}

#[test]
fn loop_entering_itself_is_not_well_nested() {
    let g = Graph::from_entries(
        vec![(0, NodeKind::Start), (1, NodeKind::WhileLoop)],
        vec![exec_wire(0, 0, 1), exec_wire(1, 0, 1)],
    );
    assert!(!g.loops_well_nested());
    let ok = Graph::from_entries(
        vec![(0, NodeKind::Start), (1, NodeKind::WhileLoop), (2, NodeKind::Print)],
        vec![exec_wire(0, 0, 1), exec_wire(1, 0, 2), exec_wire(2, 0, 2)],
    );
    assert!(ok.loops_well_nested());
}

#[test]
fn full_ir_lists_functions_in_id_order() {
    let g = graph_of(
        vec![
            (4, NodeKind::FunctionDef { name: "second".to_string(), params: "".to_string() }),
            (2, NodeKind::FunctionDef { name: "first".to_string(), params: "p".to_string() }),
        ],
        vec![],
    );
    let (functions, main_stmts) = g.build_full_ir();
    assert_eq!(functions.len(), 2);
    assert_eq!(functions[0].name, "first");
    assert_eq!(functions[0].params, vec!["p".to_string()]);
    assert_eq!(functions[1].name, "second");
    assert!(main_stmts.is_empty());
}

fn expr_path(g: &Graph, id: NodeId) -> (bool, Vec<NodeId>) {
    let mut names: std::collections::HashMap<NodeId, (String, blocko::ir::IRType)> = std::collections::HashMap::new();
    let mut out: Vec<blocko::ir::IRStmt> = Vec::new();
    let mut counters = (0usize, 0usize, 0usize, 0usize, 0usize, 0usize);
    let mut visiting: Vec<NodeId> = Vec::new();
    let r = g.build_expr_ir(id, &mut names, &mut out, &mut counters, &mut visiting);
    (r.is_some(), visiting)
}

#[test]
fn failed_expressions_leave_their_path() {
    let g = graph_of(
        vec![(2, NodeKind::Add), (3, num("1.0")), (5, NodeKind::Add), (6, NodeKind::Mul)],
        vec![data_wire(3, 2, 0), data_wire(2, 5, 0), data_wire(3, 5, 1), data_wire(3, 6, 0), data_wire(3, 6, 1)],
    );
    assert_eq!(expr_path(&g, 6), (true, vec![]));
    assert_eq!(expr_path(&g, 2), (false, vec![2]));
    assert_eq!(expr_path(&g, 5), (false, vec![5, 2]));
    assert_eq!(expr_path(&g, 9), (false, vec![9]));
    assert_eq!(expr_path(&g, 3), (true, vec![]));
    let cyc = graph_of(vec![(1, NodeKind::Add), (3, num("1.0"))], vec![data_wire(1, 1, 0), data_wire(3, 1, 1)]);
    assert_eq!(expr_path(&cyc, 1), (false, vec![1]));
}
