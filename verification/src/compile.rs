//! What compiling a graph to the IR yields, stated over the graph itself:
//! expressions are built depth first with memoised variable names, and
//! statement chains are followed along exec wires.
use vstd::prelude::*;

use crate::graph::{has_id, ids, index_of, data_input, exec_output, first_source, first_start, first_target, print_ids, Graph};
use crate::ir::{functions_nesting, nesting, stmt_nesting, IRFunctionV, IROpV, IRStatementV, IRStmtV, IRType};
use crate::node::NodeKind;
use crate::plugin::spec_plugin_def;
use crate::text::{decimal, param_list, strs};
use crate::types::{NodeId, NodeTypeId, TargetLanguage};
use crate::emit_python::py_program;
use crate::emit_braced::{cpp_program, js_program, rs_program};

verus! {

/// Variable name and type already given to the output of a node.
pub type NameMap = Map<NodeId, (Seq<char>, IRType)>;

/// Name counters: numbers; additions; subtractions and comparisons;
/// multiplications and branches; divisions and calls; logic operations.
pub type Counters = (usize, usize, usize, usize, usize, usize);

/// Longest statement chain that is followed before giving up.
pub const MAX_CHAIN_STEPS: u32 = 5000;

/// A counter after one more use (it wraps around at the top).
pub open spec fn bump(c: usize) -> usize {
    if c == usize::MAX {
        0
    } else {
        (c + 1) as usize
    }
}

/// `prefix_n` for counter value `n`.
pub open spec fn counter_name(prefix: Seq<char>, c: usize) -> Seq<char> {
    prefix + "_"@ + decimal(c as nat)
}

/// The result of building one expression.
pub struct ExprOut {
    /// Variable holding the value and its type, if it could be built.
    pub value: Option<(Seq<char>, IRType)>,
    pub names: NameMap,
    pub counters: Counters,
    /// Statements emitted on the way, failed attempts included.
    pub emitted: Seq<IRStmtV>,
}

/// The result of building the operands of one operation.
pub struct OperandsOut {
    pub vars: Option<Seq<Seq<char>>>,
    pub names: NameMap,
    pub counters: Counters,
    pub emitted: Seq<IRStmtV>,
}

/// Number of data inputs that an operation node reads.
pub open spec fn arity(k: NodeKind) -> nat {
    match k {
        NodeKind::Not => 1,
        NodeKind::Branch => 3,
        _ => 2,
    }
}

/// Whether a node kind computes a value from its data inputs.
pub open spec fn is_operation(k: NodeKind) -> bool {
    match k {
        NodeKind::Add | NodeKind::Sub | NodeKind::Mul | NodeKind::Div | NodeKind::Compare(_)
        | NodeKind::And | NodeKind::Or | NodeKind::Not | NodeKind::Branch => true,
        _ => false,
    }
}

/// The nodes feeding data inputs `0..k` of `id`, if each input is wired.
pub open spec fn operand_sources(g: Graph, id: NodeId, k: nat) -> Option<Seq<NodeId>>
    decreases k,
{
    if k == 0 {
        Some(Seq::empty())
    } else {
        match operand_sources(g, id, (k - 1) as nat) {
            None => None,
            Some(s) => match first_source(g.connections@, data_input(id, (k - 1) as usize)) {
                None => None,
                Some(p) => Some(s.push(p.node_id)),
            },
        }
    }
}

/// Nothing built: the state is handed on unchanged.
pub open spec fn no_value(names: NameMap, counters: Counters, emitted: Seq<IRStmtV>) -> ExprOut {
    ExprOut { value: None, names, counters, emitted }
}

/// The variable that an operation node gets, its type, its operation and
/// the counters after naming it.
pub open spec fn operation_result(k: NodeKind, vs: Seq<Seq<char>>, c: Counters) -> (
    Seq<char>,
    IRType,
    IROpV,
    Counters,
) {
    match k {
        NodeKind::Add => (
            counter_name("add"@, c.1),
            IRType::Number,
            IROpV::Add(vs[0], vs[1]),
            (c.0, bump(c.1), c.2, c.3, c.4, c.5),
        ),
        NodeKind::Sub => (
            counter_name("sub"@, c.2),
            IRType::Number,
            IROpV::Sub(vs[0], vs[1]),
            (c.0, c.1, bump(c.2), c.3, c.4, c.5),
        ),
        NodeKind::Mul => (
            counter_name("mul"@, c.3),
            IRType::Number,
            IROpV::Mul(vs[0], vs[1]),
            (c.0, c.1, c.2, bump(c.3), c.4, c.5),
        ),
        NodeKind::Div => (
            counter_name("div"@, c.4),
            IRType::Number,
            IROpV::Div(vs[0], vs[1]),
            (c.0, c.1, c.2, c.3, bump(c.4), c.5),
        ),
        NodeKind::Compare(op) => (
            counter_name("cmp"@, c.2),
            IRType::Bool,
            IROpV::Compare(op, vs[0], vs[1]),
            (c.0, c.1, bump(c.2), c.3, c.4, c.5),
        ),
        NodeKind::And => (
            counter_name("and"@, c.5),
            IRType::Bool,
            IROpV::And(vs[0], vs[1]),
            (c.0, c.1, c.2, c.3, c.4, bump(c.5)),
        ),
        NodeKind::Or => (
            counter_name("or"@, c.5),
            IRType::Bool,
            IROpV::Or(vs[0], vs[1]),
            (c.0, c.1, c.2, c.3, c.4, bump(c.5)),
        ),
        NodeKind::Not => (
            counter_name("not"@, c.5),
            IRType::Bool,
            IROpV::Not(vs[0]),
            (c.0, c.1, c.2, c.3, c.4, bump(c.5)),
        ),
        _ => (
            counter_name("branch"@, c.3),
            IRType::Number,
            IROpV::Branch { cond: vs[0], then_val: vs[1], else_val: vs[2] },
            (c.0, c.1, c.2, bump(c.3), c.4, c.5),
        ),
    }
}

/// An operation node once its operands are built (or failed to build).
pub open spec fn finish_operation(k: NodeKind, id: NodeId, o: OperandsOut) -> ExprOut {
    match o.vars {
        None => no_value(o.names, o.counters, o.emitted),
        Some(vs) => {
            let (name, ty, op, c) = operation_result(k, vs, o.counters);
            ExprOut {
                value: Some((name, ty)),
                names: o.names.insert(id, (name, ty)),
                counters: c,
                emitted: o.emitted.push(
                    IRStmtV::Compute(IRStatementV { var_name: name, ir_type: ty, op }),
                ),
            }
        },
    }
}

/// Builds the expression whose value node `id` outputs. `vis` holds the
/// nodes on the current path; meeting one of them again fails (a cycle).
/// A node that already has a variable reuses it.
pub open spec fn expr_ir(
    g: Graph,
    id: NodeId,
    names: NameMap,
    counters: Counters,
    vis: Seq<NodeId>,
) -> ExprOut
    decreases g.nodes@.len() - vis.len(), 0nat, 0nat,
{
    if vis.contains(id) {
        no_value(names, counters, Seq::empty())
    } else if names.contains_key(id) {
        ExprOut { value: Some(names[id]), names, counters, emitted: Seq::empty() }
    } else if !g.kinds().contains_key(id) || vis.len() >= g.nodes@.len() {
        no_value(names, counters, Seq::empty())
    } else {
        let k = g.kinds()[id];
        match k {
            NodeKind::Number(v) => {
                let name = counter_name("num"@, counters.0);
                ExprOut {
                    value: Some((name, IRType::Number)),
                    names: names.insert(id, (name, IRType::Number)),
                    counters: (
                        bump(counters.0),
                        counters.1,
                        counters.2,
                        counters.3,
                        counters.4,
                        counters.5,
                    ),
                    emitted: seq![
                        IRStmtV::Compute(
                            IRStatementV {
                                var_name: name,
                                ir_type: IRType::Number,
                                op: IROpV::Literal(v@),
                            },
                        ),
                    ],
                }
            },
            NodeKind::GetVariable(v) => ExprOut {
                value: Some((v@, IRType::Number)),
                names: names.insert(id, (v@, IRType::Number)),
                counters,
                emitted: Seq::empty(),
            },
            _ => if is_operation(k) {
                match operand_sources(g, id, arity(k)) {
                    None => no_value(names, counters, Seq::empty()),
                    Some(srcs) => finish_operation(
                        k,
                        id,
                        operands_ir(g, srcs, names, counters, vis.push(id)),
                    ),
                }
            } else {
                no_value(names, counters, Seq::empty())
            },
        }
    }
}

/// Builds the operand expressions in order, stopping at the first failure.
pub open spec fn operands_ir(
    g: Graph,
    srcs: Seq<NodeId>,
    names: NameMap,
    counters: Counters,
    vis: Seq<NodeId>,
) -> OperandsOut
    decreases g.nodes@.len() - vis.len(), 1nat, srcs.len(),
{
    if srcs.len() == 0 {
        OperandsOut { vars: Some(Seq::empty()), names, counters, emitted: Seq::empty() }
    } else {
        let r = operands_ir(g, srcs.drop_last(), names, counters, vis);
        match r.vars {
            None => r,
            Some(vs) => {
                let e = expr_ir(g, srcs.last(), r.names, r.counters, vis);
                OperandsOut {
                    vars: match e.value {
                        Some((n, _)) => Some(vs.push(n)),
                        None => None,
                    },
                    names: e.names,
                    counters: e.counters,
                    emitted: r.emitted + e.emitted,
                }
            },
        }
    }
}

/// The path left after building the expression of `id` from path `vis`:
/// `vis` again when the expression is built, or refused before `id` is
/// entered (a cycle, a memoised or a non-expression node); with `id` added
/// when `id` is entered and then fails, followed by what the failing
/// operand left behind.
pub open spec fn expr_vis(
    g: Graph,
    id: NodeId,
    names: NameMap,
    counters: Counters,
    vis: Seq<NodeId>,
) -> Seq<NodeId>
    decreases g.nodes@.len() - vis.len(), 0nat, 0nat,
{
    if vis.contains(id) {
        vis
    } else if names.contains_key(id) {
        vis
    } else if !g.kinds().contains_key(id) || vis.len() >= g.nodes@.len() {
        vis.push(id)
    } else {
        let k = g.kinds()[id];
        if is_operation(k) {
            match operand_sources(g, id, arity(k)) {
                None => vis.push(id),
                Some(srcs) => if operands_ir(g, srcs, names, counters, vis.push(id)).vars is None {
                    operands_vis(g, srcs, names, counters, vis.push(id))
                } else {
                    vis
                },
            }
        } else {
            vis
        }
    }
}

/// The path left after building operands in order: what the first failing
/// operand left behind, or `vis` again when all are built.
pub open spec fn operands_vis(
    g: Graph,
    srcs: Seq<NodeId>,
    names: NameMap,
    counters: Counters,
    vis: Seq<NodeId>,
) -> Seq<NodeId>
    decreases g.nodes@.len() - vis.len(), 1nat, srcs.len(),
{
    if srcs.len() == 0 {
        vis
    } else {
        let r = operands_ir(g, srcs.drop_last(), names, counters, vis);
        match r.vars {
            None => operands_vis(g, srcs.drop_last(), names, counters, vis),
            Some(_) => if expr_ir(g, srcs.last(), r.names, r.counters, vis).value is None {
                expr_vis(g, srcs.last(), r.names, r.counters, vis)
            } else {
                vis
            },
        }
    }
}

/// A statement input's variable: the expression feeding data input `index`
/// of `id`, or `default` when nothing is wired or it cannot be built.
pub struct InputOut {
    pub var: Seq<char>,
    pub names: NameMap,
    pub counters: Counters,
    pub emitted: Seq<IRStmtV>,
}

/// Builds the value feeding data input `index` of `id`.
pub open spec fn input_ir(
    g: Graph,
    id: NodeId,
    index: usize,
    names: NameMap,
    counters: Counters,
    default: Seq<char>,
) -> InputOut {
    match first_source(g.connections@, data_input(id, index)) {
        None => InputOut { var: default, names, counters, emitted: Seq::empty() },
        Some(src) => {
            let e = expr_ir(g, src.node_id, names, counters, Seq::empty());
            InputOut {
                var: match e.value {
                    Some((n, _)) => n,
                    None => default,
                },
                names: e.names,
                counters: e.counters,
                emitted: e.emitted,
            }
        },
    }
}

/// The result of building the arguments of a plugin node.
pub struct ArgsOut {
    pub vars: Seq<Seq<char>>,
    pub names: NameMap,
    pub counters: Counters,
    pub emitted: Seq<IRStmtV>,
}

/// Builds data inputs `0..n` of a plugin node, in order.
pub open spec fn plugin_args_ir(
    g: Graph,
    id: NodeId,
    n: nat,
    names: NameMap,
    counters: Counters,
) -> ArgsOut
    decreases n,
{
    if n == 0 {
        ArgsOut { vars: Seq::empty(), names, counters, emitted: Seq::empty() }
    } else {
        let r = plugin_args_ir(g, id, (n - 1) as nat, names, counters);
        let a = input_ir(g, id, (n - 1) as usize, r.names, r.counters, "0.0"@);
        ArgsOut {
            vars: r.vars.push(a.var),
            names: a.names,
            counters: a.counters,
            emitted: r.emitted + a.emitted,
        }
    }
}

/// Variables that receive the outputs of a plugin node.
pub open spec fn plugin_out_vars(node_type: NodeTypeId, id: NodeId, n: nat) -> Seq<Seq<char>> {
    Seq::new(
        n,
        |i: int|
            "plugin_"@ + decimal(node_type as nat) + "_"@ + decimal(id as nat) + "_"@ + decimal(
                i as nat,
            ),
    )
}

/// Where a chain goes after a statement node that is not a loop.
pub open spec fn next_of(g: Graph, id: NodeId) -> Option<NodeId> {
    match g.kinds()[id] {
        NodeKind::SetVariable(_) | NodeKind::Print | NodeKind::FunctionCall { .. }
        | NodeKind::Plugin(_) => first_target(g.connections@, exec_output(id, 0)),
        _ => None,
    }
}

/// The comment that replaces a Print whose input could not be built.
pub open spec fn print_failed(id: NodeId) -> Seq<char> {
    "Print node "@ + decimal(id as nat) + " has a cycle or missing input"@
}

/// The comment that replaces a Print with nothing wired to it.
pub open spec fn print_unwired(id: NodeId) -> Seq<char> {
    "Print node "@ + decimal(id as nat) + " has no input connected"@
}

/// The comment that ends a chain cut short.
pub open spec fn chain_stopped() -> Seq<char> {
    "execution chain too long or cyclic, stopped"@
}

/// The statements of one node that is not a loop.
pub struct StepOut {
    pub stmts: Seq<IRStmtV>,
    pub names: NameMap,
    pub counters: Counters,
}

/// The statements that a Print node contributes.
pub open spec fn print_ir(g: Graph, id: NodeId, names: NameMap, counters: Counters) -> StepOut {
    match first_source(g.connections@, data_input(id, 0)) {
        None => StepOut { stmts: seq![IRStmtV::Comment(print_unwired(id))], names, counters },
        Some(src) => {
            let e = expr_ir(g, src.node_id, names, counters, Seq::empty());
            StepOut {
                stmts: e.emitted.push(
                    match e.value {
                        Some((v, _)) => IRStmtV::Print { value_var: v },
                        None => IRStmtV::Comment(print_failed(id)),
                    },
                ),
                names: e.names,
                counters: e.counters,
            }
        },
    }
}

/// The statements that a statement node other than a loop contributes.
pub open spec fn step_ir(g: Graph, id: NodeId, names: NameMap, counters: Counters) -> StepOut {
    match g.kinds()[id] {
        NodeKind::SetVariable(name) => {
            let v = input_ir(g, id, 0, names, counters, "0.0"@);
            StepOut {
                stmts: v.emitted.push(IRStmtV::SetVar { name: name@, value_var: v.var }),
                names: v.names,
                counters: v.counters,
            }
        },
        NodeKind::Print => print_ir(g, id, names, counters),
        NodeKind::FunctionCall { name } => {
            let a = input_ir(g, id, 0, names, counters, "0.0"@);
            let b = input_ir(g, id, 1, a.names, a.counters, "0.0"@);
            let c = b.counters;
            let call = counter_name("call"@, c.4);
            StepOut {
                stmts: (a.emitted + b.emitted).push(
                    IRStmtV::CallFunction {
                        var_name: call,
                        func_name: name@,
                        args: seq![a.var, b.var],
                    },
                ),
                names: b.names.insert(id, (call, IRType::Number)),
                counters: (c.0, c.1, c.2, c.3, bump(c.4), c.5),
            }
        },
        NodeKind::Return => {
            let v = input_ir(g, id, 0, names, counters, "0.0"@);
            StepOut {
                stmts: v.emitted.push(IRStmtV::Return(v.var)),
                names: v.names,
                counters: v.counters,
            }
        },
        NodeKind::Plugin(inst) => match spec_plugin_def(inst.plugin_id) {
            Some(def) => {
                let a = plugin_args_ir(g, id, def.data_inputs.len(), names, counters);
                StepOut {
                    stmts: a.emitted.push(
                        IRStmtV::PluginCall {
                            plugin_id: inst.plugin_id,
                            node_type: inst.node_type,
                            config: strs(inst.config.values@),
                            arg_vars: a.vars,
                            out_vars: plugin_out_vars(
                                inst.node_type,
                                id,
                                def.data_outputs.len(),
                            ),
                        },
                    ),
                    names: a.names,
                    counters: a.counters,
                }
            },
            None => StepOut { stmts: Seq::empty(), names, counters },
        },
        _ => StepOut { stmts: Seq::empty(), names, counters },
    }
}

/// The statements of a chain and the counters after it.
pub struct ChainOut {
    pub stmts: Seq<IRStmtV>,
    pub counters: Counters,
}

/// Follows a statement chain from `current`: `steps` nodes were already
/// taken, and `stack` holds the loops whose bodies are being built.
pub open spec fn chain_ir(
    g: Graph,
    current: Option<NodeId>,
    names: NameMap,
    counters: Counters,
    steps: nat,
    stack: Seq<NodeId>,
) -> ChainOut
    decreases g.nodes@.len() - stack.len(), MAX_CHAIN_STEPS - steps,
{
    match current {
        None => ChainOut { stmts: Seq::empty(), counters },
        Some(id) => if steps >= MAX_CHAIN_STEPS {
            ChainOut { stmts: seq![IRStmtV::Comment(chain_stopped())], counters }
        } else if !g.kinds().contains_key(id) {
            ChainOut { stmts: Seq::empty(), counters }
        } else if g.kinds()[id] is WhileLoop {
            if stack.contains(id) || stack.len() >= g.nodes@.len() {
                ChainOut { stmts: Seq::empty(), counters }
            } else {
                let c = input_ir(g, id, 0, Map::empty(), counters, "false"@);
                let body = chain_ir(
                    g,
                    first_target(g.connections@, exec_output(id, 0)),
                    Map::empty(),
                    c.counters,
                    0,
                    stack.push(id),
                );
                let rest = chain_ir(
                    g,
                    first_target(g.connections@, exec_output(id, 1)),
                    names,
                    body.counters,
                    steps + 1,
                    stack,
                );
                ChainOut {
                    stmts: seq![
                        IRStmtV::While { cond_lines: c.emitted, cond_var: c.var, body: body.stmts },
                    ] + rest.stmts,
                    counters: rest.counters,
                }
            }
        } else {
            let s = step_ir(g, id, names, counters);
            let rest = chain_ir(g, next_of(g, id), s.names, s.counters, steps + 1, stack);
            ChainOut { stmts: s.stmts + rest.stmts, counters: rest.counters }
        },
    }
}

/// Whether building the chain from `current` never meets, inside a loop
/// body, a loop whose body is already being built. Such a graph would make
/// the chain builder recurse without end.
pub open spec fn chain_ok(g: Graph, current: Option<NodeId>, steps: nat, stack: Seq<NodeId>) -> bool
    decreases g.nodes@.len() - stack.len(), MAX_CHAIN_STEPS - steps,
{
    match current {
        None => true,
        Some(id) => if steps >= MAX_CHAIN_STEPS || !g.kinds().contains_key(id) {
            true
        } else if g.kinds()[id] is WhileLoop {
            if stack.contains(id) || stack.len() >= g.nodes@.len() {
                false
            } else {
                chain_ok(g, first_target(g.connections@, exec_output(id, 0)), 0, stack.push(id))
                    && chain_ok(
                    g,
                    first_target(g.connections@, exec_output(id, 1)),
                    steps + 1,
                    stack,
                )
            }
        } else {
            chain_ok(g, next_of(g, id), steps + 1, stack)
        },
    }
}


/// The functions compiled so far and the counters after them.
pub struct FunctionsOut {
    pub functions: Seq<IRFunctionV>,
    pub counters: Counters,
}

/// The chain that starts at exec output 0 of `id`.
pub open spec fn body_start(g: Graph, id: NodeId) -> Option<NodeId> {
    first_target(g.connections@, exec_output(id, 0))
}

/// Compiles the function definitions among the first `n` nodes, in id
/// order.
pub open spec fn functions_ir(g: Graph, n: nat, counters: Counters) -> FunctionsOut
    decreases n,
{
    if n == 0 {
        FunctionsOut { functions: Seq::empty(), counters }
    } else {
        let r = functions_ir(g, (n - 1) as nat, counters);
        let node = g.nodes@[n - 1];
        match node.kind {
            NodeKind::FunctionDef { name, params } => {
                let body = chain_ir(
                    g,
                    body_start(g, node.id),
                    Map::empty(),
                    r.counters,
                    0,
                    Seq::empty(),
                );
                FunctionsOut {
                    functions: r.functions.push(
                        IRFunctionV { name: name@, params: param_list(params@), body: body.stmts },
                    ),
                    counters: body.counters,
                }
            },
            _ => r,
        }
    }
}

/// The statements of the given Print nodes, in order, sharing variables.
pub open spec fn prints_ir(g: Graph, ids: Seq<NodeId>, names: NameMap, counters: Counters) -> StepOut
    decreases ids.len(),
{
    if ids.len() == 0 {
        StepOut { stmts: Seq::empty(), names, counters }
    } else {
        let r = prints_ir(g, ids.drop_last(), names, counters);
        let p = print_ir(g, ids.last(), r.names, r.counters);
        StepOut { stmts: r.stmts + p.stmts, names: p.names, counters: p.counters }
    }
}

/// The main statements: the chain after the first Start node, or, with no
/// Start node, every Print node in id order.
pub open spec fn main_ir(g: Graph, counters: Counters) -> Seq<IRStmtV> {
    match first_start(g.nodes@) {
        Some(s) => chain_ir(g, body_start(g, s), Map::empty(), counters, 0, Seq::empty()).stmts,
        None => prints_ir(g, print_ids(g.nodes@), Map::empty(), counters).stmts,
    }
}

/// The whole program: the functions, then the main statements, with the
/// name counters running on from the functions into the main statements.
pub open spec fn full_ir(g: Graph) -> (Seq<IRFunctionV>, Seq<IRStmtV>) {
    let f = functions_ir(g, g.nodes@.len(), (0, 0, 0, 0, 0, 0));
    (f.functions, main_ir(g, f.counters))
}

/// Whether every chain that the compiler builds keeps its loops properly
/// nested (see `chain_ok`).
pub open spec fn graph_ok(g: Graph) -> bool {
    &&& forall|i: int|
        0 <= i < g.nodes@.len() && (#[trigger] g.nodes@[i]).kind is FunctionDef ==> chain_ok(
            g,
            body_start(g, g.nodes@[i].id),
            0,
            Seq::empty(),
        )
    &&& match first_start(g.nodes@) {
        Some(s) => chain_ok(g, body_start(g, s), 0, Seq::empty()),
        None => true,
    }
}

/// The source text of a program in one language.
pub open spec fn program_text(
    language: TargetLanguage,
    fs: Seq<IRFunctionV>,
    main: Seq<IRStmtV>,
) -> Seq<char> {
    match language {
        TargetLanguage::Python => py_program(fs, main),
        TargetLanguage::Rust => rs_program(fs, main),
        TargetLanguage::JavaScript => js_program(fs, main),
        TargetLanguage::Cpp => cpp_program(fs, main),
    }
}

/// The source text that a graph compiles to in one language.
pub open spec fn generated_code(g: Graph, language: TargetLanguage) -> Seq<char> {
    program_text(language, full_ir(g).0, full_ir(g).1)
}

/// A path of nodes being built: no node twice, each one in the graph.
pub open spec fn path_ok(g: Graph, vis: Seq<NodeId>) -> bool {
    &&& vis.no_duplicates()
    &&& forall|i: int| 0 <= i < vis.len() ==> g.kinds().contains_key(#[trigger] vis[i])
}

/// A path that can grow by a node of the graph is shorter than the graph.
pub proof fn lemma_path_shorter(g: Graph, vis: Seq<NodeId>, id: NodeId)
    requires
        path_ok(g, vis),
        g.kinds().contains_key(id),
        !vis.contains(id),
    ensures
        vis.len() < g.nodes@.len(),
{
    let p = vis.push(id);
    assert(p.no_duplicates()) by {
        assert forall|i: int, j: int| 0 <= i < p.len() && 0 <= j < p.len() && i != j implies p[i]
            != p[j] by {
            if i < vis.len() && j < vis.len() {
            } else if i == vis.len() {
                assert(vis[j] == p[j]);
            } else {
                assert(vis[i] == p[i]);
            }
        }
    }
    p.unique_seq_to_set();
    let all = ids(g.nodes@);
    all.lemma_cardinality_of_set();
    assert(p.to_set().subset_of(all.to_set())) by {
        assert forall|x: NodeId| p.to_set().contains(x) implies all.to_set().contains(x) by {
            let i = choose|i: int| 0 <= i < p.len() && p[i] == x;
            assert(g.kinds().contains_key(p[i]));
            let j = choose|j: int| 0 <= j < g.nodes@.len() && g.nodes@[j].id == x;
            assert(all[j] == x);
        }
    }
    vstd::set_lib::lemma_len_subset(p.to_set(), all.to_set());
}

/// A path grows by a node of the graph that is not on it.
pub proof fn lemma_path_push(g: Graph, vis: Seq<NodeId>, id: NodeId)
    requires
        path_ok(g, vis),
        g.kinds().contains_key(id),
        !vis.contains(id),
    ensures
        path_ok(g, vis.push(id)),
{
    let p = vis.push(id);
    assert forall|i: int, j: int| 0 <= i < p.len() && 0 <= j < p.len() && i != j implies p[i]
        != p[j] by {
        if i < vis.len() && j < vis.len() {
        } else if i == vis.len() {
            assert(vis[j] == p[j]);
        } else {
            assert(vis[i] == p[i]);
        }
    }
    assert forall|i: int| 0 <= i < p.len() implies g.kinds().contains_key(#[trigger] p[i]) by {
        if i < vis.len() {
            assert(p[i] == vis[i]);
        }
    }
}


/// No loop among the statements.
pub open spec fn flat(ss: Seq<IRStmtV>) -> bool {
    forall|i: int| 0 <= i < ss.len() ==> !(#[trigger] ss[i] is While)
}

/// Loops nest in a concatenation as deep as in its deeper part.
pub proof fn lemma_nesting_concat(a: Seq<IRStmtV>, b: Seq<IRStmtV>)
    ensures
        nesting(a + b) == if nesting(a) >= nesting(b) {
            nesting(a)
        } else {
            nesting(b)
        },
    decreases b.len(),
{
    if b.len() == 0 {
        assert(a + b =~= a);
    } else {
        lemma_nesting_concat(a, b.drop_last());
        assert((a + b).drop_last() =~= a + b.drop_last());
        assert((a + b).last() == b.last());
    }
}

/// Statements without loops do not nest.
pub proof fn lemma_flat_nesting(ss: Seq<IRStmtV>)
    requires
        flat(ss),
    ensures
        nesting(ss) == 0,
    decreases ss.len(),
{
    if ss.len() > 0 {
        assert(flat(ss.drop_last())) by {
            assert forall|i: int| 0 <= i < ss.drop_last().len() implies !(
            #[trigger] ss.drop_last()[i] is While) by {
                assert(ss.drop_last()[i] == ss[i]);
            }
        }
        lemma_flat_nesting(ss.drop_last());
        assert(!(ss[ss.len() - 1] is While));
        assert(stmt_nesting(ss.last()) == 0);
    }
}

/// Concatenating statements without loops gives statements without loops.
pub proof fn lemma_flat_concat(a: Seq<IRStmtV>, b: Seq<IRStmtV>)
    requires
        flat(a),
        flat(b),
    ensures
        flat(a + b),
{
    assert forall|i: int| 0 <= i < (a + b).len() implies !(#[trigger] (a + b)[i] is While) by {
        if i < a.len() {
            assert((a + b)[i] == a[i]);
        } else {
            assert((a + b)[i] == b[i - a.len()]);
        }
    }
}

/// Expressions compile to statements without loops.
pub proof fn lemma_expr_flat(g: Graph, id: NodeId, names: NameMap, counters: Counters, vis: Seq<NodeId>)
    ensures
        flat(expr_ir(g, id, names, counters, vis).emitted),
    decreases g.nodes@.len() - vis.len(), 0nat, 0nat,
{
    if !vis.contains(id) && !names.contains_key(id) && g.kinds().contains_key(id) && vis.len()
        < g.nodes@.len() {
        let k = g.kinds()[id];
        if is_operation(k) {
            if let Some(srcs) = operand_sources(g, id, arity(k)) {
                lemma_operands_flat(g, srcs, names, counters, vis.push(id));
                let o = operands_ir(g, srcs, names, counters, vis.push(id));
                if o.vars is Some {
                    let e = finish_operation(k, id, o).emitted;
                    assert forall|i: int| 0 <= i < e.len() implies !(#[trigger] e[i] is While) by {
                        if i < o.emitted.len() {
                            assert(e[i] == o.emitted[i]);
                        }
                    }
                }
            }
        }
    }
}

/// Operands compile to statements without loops.
pub proof fn lemma_operands_flat(
    g: Graph,
    srcs: Seq<NodeId>,
    names: NameMap,
    counters: Counters,
    vis: Seq<NodeId>,
)
    ensures
        flat(operands_ir(g, srcs, names, counters, vis).emitted),
    decreases g.nodes@.len() - vis.len(), 1nat, srcs.len(),
{
    if srcs.len() > 0 {
        lemma_operands_flat(g, srcs.drop_last(), names, counters, vis);
        let r = operands_ir(g, srcs.drop_last(), names, counters, vis);
        if r.vars is Some {
            lemma_expr_flat(g, srcs.last(), r.names, r.counters, vis);
            lemma_flat_concat(r.emitted, expr_ir(g, srcs.last(), r.names, r.counters, vis).emitted);
        }
    }
}

/// A statement input compiles to statements without loops.
pub proof fn lemma_input_flat(
    g: Graph,
    id: NodeId,
    index: usize,
    names: NameMap,
    counters: Counters,
    default: Seq<char>,
)
    ensures
        flat(input_ir(g, id, index, names, counters, default).emitted),
{
    if let Some(src) = first_source(g.connections@, data_input(id, index)) {
        lemma_expr_flat(g, src.node_id, names, counters, Seq::empty());
    }
}

/// Plugin arguments compile to statements without loops.
pub proof fn lemma_plugin_args_flat(g: Graph, id: NodeId, n: nat, names: NameMap, counters: Counters)
    ensures
        flat(plugin_args_ir(g, id, n, names, counters).emitted),
    decreases n,
{
    if n > 0 {
        lemma_plugin_args_flat(g, id, (n - 1) as nat, names, counters);
        let r = plugin_args_ir(g, id, (n - 1) as nat, names, counters);
        lemma_input_flat(g, id, (n - 1) as usize, r.names, r.counters, "0.0"@);
        lemma_flat_concat(
            r.emitted,
            input_ir(g, id, (n - 1) as usize, r.names, r.counters, "0.0"@).emitted,
        );
    }
}

/// Appending a statement that is not a loop keeps statements loop-free.
pub proof fn lemma_flat_push(a: Seq<IRStmtV>, s: IRStmtV)
    requires
        flat(a),
        !(s is While),
    ensures
        flat(a.push(s)),
{
    assert forall|i: int| 0 <= i < a.push(s).len() implies !(#[trigger] a.push(s)[i] is While) by {
        if i < a.len() {
            assert(a.push(s)[i] == a[i]);
        }
    }
}

/// A Print node compiles to statements without loops.
pub proof fn lemma_print_flat(g: Graph, id: NodeId, names: NameMap, counters: Counters)
    ensures
        flat(print_ir(g, id, names, counters).stmts),
{
    if let Some(src) = first_source(g.connections@, data_input(id, 0)) {
        lemma_expr_flat(g, src.node_id, names, counters, Seq::empty());
        let e = expr_ir(g, src.node_id, names, counters, Seq::empty());
        lemma_flat_push(
            e.emitted,
            match e.value {
                Some((v, _)) => IRStmtV::Print { value_var: v },
                None => IRStmtV::Comment(print_failed(id)),
            },
        );
    } else {
        assert(!(seq![IRStmtV::Comment(print_unwired(id))][0] is While));
    }
}

/// A statement node other than a loop compiles to statements without loops.
pub proof fn lemma_step_flat(g: Graph, id: NodeId, names: NameMap, counters: Counters)
    ensures
        flat(step_ir(g, id, names, counters).stmts),
{
    let s = step_ir(g, id, names, counters);
    match g.kinds()[id] {
        NodeKind::SetVariable(_) | NodeKind::Return => {
            lemma_input_flat(g, id, 0, names, counters, "0.0"@);
            let v = input_ir(g, id, 0, names, counters, "0.0"@);
            lemma_flat_push(v.emitted, s.stmts.last());
            assert(s.stmts == v.emitted.push(s.stmts.last()));
        },
        NodeKind::Print => {
            lemma_print_flat(g, id, names, counters);
        },
        NodeKind::FunctionCall { .. } => {
            lemma_input_flat(g, id, 0, names, counters, "0.0"@);
            let a = input_ir(g, id, 0, names, counters, "0.0"@);
            lemma_input_flat(g, id, 1, a.names, a.counters, "0.0"@);
            let b = input_ir(g, id, 1, a.names, a.counters, "0.0"@);
            lemma_flat_concat(a.emitted, b.emitted);
            lemma_flat_push(a.emitted + b.emitted, s.stmts.last());
            assert(s.stmts == (a.emitted + b.emitted).push(s.stmts.last()));
        },
        NodeKind::Plugin(inst) => {
            if let Some(def) = spec_plugin_def(inst.plugin_id) {
                lemma_plugin_args_flat(g, id, def.data_inputs.len(), names, counters);
                let a = plugin_args_ir(g, id, def.data_inputs.len(), names, counters);
                lemma_flat_push(a.emitted, s.stmts.last());
                assert(s.stmts == a.emitted.push(s.stmts.last()));
            }
        },
        _ => {},
    }
}

/// Every node of a loop stack is a loop node.
pub open spec fn loops_only(g: Graph, stack: Seq<NodeId>) -> bool {
    forall|i: int| 0 <= i < stack.len() ==> (g.kinds()[#[trigger] stack[i]] is WhileLoop)
}

/// Loops nest in a chain at most as deep as there are loop nodes off the
/// stack: with a node of the graph that is no loop, fewer than the graph's
/// size minus the stack.
pub proof fn lemma_chain_nesting(
    g: Graph,
    current: Option<NodeId>,
    names: NameMap,
    counters: Counters,
    steps: nat,
    stack: Seq<NodeId>,
    anchor: NodeId,
)
    requires
        path_ok(g, stack),
        loops_only(g, stack),
        g.kinds().contains_key(anchor),
        !(g.kinds()[anchor] is WhileLoop),
        chain_ok(g, current, steps, stack),
    ensures
        nesting(chain_ir(g, current, names, counters, steps, stack).stmts) + stack.len() < g.nodes@.len(),
    decreases g.nodes@.len() - stack.len(), MAX_CHAIN_STEPS - steps,
{
    if stack.contains(anchor) {
        let i = choose|i: int| 0 <= i < stack.len() && stack[i] == anchor;
        assert(g.kinds()[stack[i]] is WhileLoop);
    }
    lemma_path_shorter(g, stack, anchor);
    let c = chain_ir(g, current, names, counters, steps, stack);
    match current {
        None => {},
        Some(id) => {
            if steps >= MAX_CHAIN_STEPS {
                assert(nesting(c.stmts) == 0) by {
                    reveal_with_fuel(nesting, 2);
                }
            } else if !g.kinds().contains_key(id) {
            } else if g.kinds()[id] is WhileLoop {
                let ci = input_ir(g, id, 0, Map::empty(), counters, "false"@);
                let inner = stack.push(id);
                lemma_path_push(g, stack, id);
                assert(loops_only(g, inner)) by {
                    assert forall|i: int| 0 <= i < inner.len() implies (g.kinds()[#[trigger] inner[i]] is WhileLoop) by {
                        if i < stack.len() {
                            assert(inner[i] == stack[i]);
                        }
                    }
                }
                lemma_chain_nesting(g, body_start(g, id), Map::empty(), ci.counters, 0, inner, anchor);
                let body = chain_ir(g, body_start(g, id), Map::empty(), ci.counters, 0, inner);
                lemma_chain_nesting(
                    g,
                    first_target(g.connections@, exec_output(id, 1)),
                    names,
                    body.counters,
                    steps + 1,
                    stack,
                    anchor,
                );
                let rest = chain_ir(
                    g,
                    first_target(g.connections@, exec_output(id, 1)),
                    names,
                    body.counters,
                    steps + 1,
                    stack,
                );
                lemma_input_flat(g, id, 0, Map::empty(), counters, "false"@);
                lemma_flat_nesting(ci.emitted);
                let w = IRStmtV::While { cond_lines: ci.emitted, cond_var: ci.var, body: body.stmts };
                assert(nesting(seq![w]) == stmt_nesting(w)) by {
                    reveal_with_fuel(nesting, 2);
                }
                lemma_nesting_concat(seq![w], rest.stmts);
            } else {
                let s = step_ir(g, id, names, counters);
                lemma_step_flat(g, id, names, counters);
                lemma_flat_nesting(s.stmts);
                lemma_chain_nesting(g, next_of(g, id), s.names, s.counters, steps + 1, stack, anchor);
                lemma_nesting_concat(
                    s.stmts,
                    chain_ir(g, next_of(g, id), s.names, s.counters, steps + 1, stack).stmts,
                );
            }
        },
    }
}


/// In a well-formed graph, the kind that the map gives for the id at
/// position `i` is that node's kind.
pub proof fn lemma_kind_at(g: Graph, i: int)
    requires
        g.wf(),
        0 <= i < g.nodes@.len(),
    ensures
        g.kinds().contains_key(g.nodes@[i].id),
        g.kinds()[g.nodes@[i].id] == g.nodes@[i].kind,
{
    let id = g.nodes@[i].id;
    assert(has_id(g.nodes@, id));
    let k = index_of(g.nodes@, id);
    if k != i {
        if k < i {
            assert(g.nodes@[k].id < g.nodes@[i].id);
        } else {
            assert(g.nodes@[i].id < g.nodes@[k].id);
        }
    }
}

/// The first Start node is a Start node of the graph.
pub proof fn lemma_first_start(g: Graph, from: int)
    requires
        g.wf(),
        0 <= from <= g.nodes@.len(),
        first_start(g.nodes@.skip(from)) is Some,
    ensures
        g.kinds().contains_key(first_start(g.nodes@.skip(from))->0),
        g.kinds()[first_start(g.nodes@.skip(from))->0] is Start,
    decreases g.nodes@.len() - from,
{
    let rest = g.nodes@.skip(from);
    if from == g.nodes@.len() {
        assert(rest.len() == 0);
    } else {
        assert(rest[0] == g.nodes@[from]);
        if rest[0].kind is Start {
            lemma_kind_at(g, from);
        } else {
            assert(rest.drop_first() =~= g.nodes@.skip(from + 1));
            lemma_first_start(g, from + 1);
        }
    }
}

/// Print statements contain no loop.
pub proof fn lemma_prints_flat(g: Graph, ids: Seq<NodeId>, names: NameMap, counters: Counters)
    ensures
        flat(prints_ir(g, ids, names, counters).stmts),
    decreases ids.len(),
{
    if ids.len() > 0 {
        lemma_prints_flat(g, ids.drop_last(), names, counters);
        let r = prints_ir(g, ids.drop_last(), names, counters);
        lemma_print_flat(g, ids.last(), r.names, r.counters);
        lemma_flat_concat(r.stmts, print_ir(g, ids.last(), r.names, r.counters).stmts);
    }
}

/// Loops nest in compiled function bodies less deep than the graph is large.
pub proof fn lemma_functions_nesting(g: Graph, n: nat, counters: Counters)
    requires
        g.wf(),
        graph_ok(g),
        n <= g.nodes@.len(),
    ensures
        functions_nesting(functions_ir(g, n, counters).functions) < g.nodes@.len()
            || functions_nesting(functions_ir(g, n, counters).functions) == 0,
    decreases n,
{
    if n > 0 {
        lemma_functions_nesting(g, (n - 1) as nat, counters);
        let r = functions_ir(g, (n - 1) as nat, counters);
        let node = g.nodes@[n - 1];
        if node.kind is FunctionDef {
            lemma_kind_at(g, n - 1);
            assert(path_ok(g, Seq::empty()));
            lemma_chain_nesting(g, body_start(g, node.id), Map::empty(), r.counters, 0, Seq::empty(), node.id);
            let fs = functions_ir(g, n, counters).functions;
            assert(fs.drop_last() == r.functions);
            assert(fs.len() > 0);
        }
    }
}

/// Loops nest in the main statements less deep than the graph is large.
pub proof fn lemma_main_nesting(g: Graph, counters: Counters)
    requires
        g.wf(),
        graph_ok(g),
    ensures
        nesting(main_ir(g, counters)) < g.nodes@.len() || nesting(main_ir(g, counters)) == 0,
{
    match first_start(g.nodes@) {
        Some(s) => {
            assert(g.nodes@.skip(0) =~= g.nodes@);
            lemma_first_start(g, 0);
            assert(path_ok(g, Seq::empty()));
            lemma_chain_nesting(g, body_start(g, s), Map::empty(), counters, 0, Seq::empty(), s);
        },
        None => {
            lemma_prints_flat(g, print_ids(g.nodes@), Map::empty(), counters);
            lemma_flat_nesting(prints_ir(g, print_ids(g.nodes@), Map::empty(), counters).stmts);
        },
    }
}

} // verus!
