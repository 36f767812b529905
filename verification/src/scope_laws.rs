//! Compiled programs read only what exists: every statement reads
//! program variables, literal defaults, or variables that an earlier
//! statement of its own block or of an enclosing block defines. Shown
//! first for expressions, then for statements, chains and whole programs.
use vstd::prelude::*;

use crate::compile::{
    arity, counter_name, expr_ir, finish_operation, input_ir, is_operation, operand_sources, operands_ir,
    operation_result, plugin_args_ir, plugin_out_vars, print_failed, print_ir, print_unwired, step_ir,
    body_start, chain_ir, chain_stopped, full_ir, functions_ir, next_of, prints_ir, Counters, NameMap,
    MAX_CHAIN_STEPS,
};
use crate::plugin::spec_plugin_def;
use crate::text::strs;
use crate::graph::{data_input, exec_output, first_source, first_start, first_target, print_ids, Graph};
use crate::ir::{IROpV, IRStatementV, IRStmtV};
use crate::node::NodeKind;
use crate::types::NodeId;

verus! {

/// The variables that an operation reads, in order.
pub open spec fn op_reads(op: IROpV) -> Seq<Seq<char>> {
    match op {
        IROpV::Literal(_) => Seq::empty(),
        IROpV::Add(a, b) => seq![a, b],
        IROpV::Sub(a, b) => seq![a, b],
        IROpV::Mul(a, b) => seq![a, b],
        IROpV::Div(a, b) => seq![a, b],
        IROpV::Compare(_, a, b) => seq![a, b],
        IROpV::And(a, b) => seq![a, b],
        IROpV::Or(a, b) => seq![a, b],
        IROpV::Not(a) => seq![a],
        IROpV::Branch { cond, then_val, else_val } => seq![cond, then_val, else_val],
    }
}

/// Whether some computation among `stmts` defines `v`.
pub open spec fn defines(stmts: Seq<IRStmtV>, v: Seq<char>) -> bool {
    exists|m: int| 0 <= m < stmts.len() && (#[trigger] stmts[m]) is Compute && stmts[m]->Compute_0.var_name == v
}

/// Whether every variable that a computation among `stmts` reads is
/// `known` or defined by an earlier computation.
pub open spec fn reads_defined(stmts: Seq<IRStmtV>, known: Set<Seq<char>>) -> bool {
    forall|k: int, j: int|
        0 <= k < stmts.len() && stmts[k] is Compute && 0 <= j < op_reads(stmts[k]->Compute_0.op).len()
            ==> known.contains(#[trigger] op_reads(stmts[k]->Compute_0.op)[j]) || defines(
            stmts.take(k),
            op_reads(stmts[k]->Compute_0.op)[j],
        )
}

/// Whether every statement is a computation.
pub open spec fn all_computations(stmts: Seq<IRStmtV>) -> bool {
    forall|m: int| 0 <= m < stmts.len() ==> (#[trigger] stmts[m]) is Compute
}

/// The program variables that Get Variable nodes of the graph read.
pub open spec fn read_variables(g: Graph) -> Set<Seq<char>> {
    Set::new(
        |v: Seq<char>|
            exists|id: NodeId| #[trigger]
                g.kinds().contains_key(id) && g.kinds()[id] is GetVariable
                    && g.kinds()[id]->GetVariable_0@ == v,
    )
}

/// Whether every variable named in `names` is `known` or defined among
/// `stmts`.
pub open spec fn names_within(names: NameMap, known: Set<Seq<char>>, stmts: Seq<IRStmtV>) -> bool {
    forall|k: NodeId| #[trigger]
        names.contains_key(k) ==> known.contains(names[k].0) || defines(stmts, names[k].0)
}

/// What two statement lists define together.
proof fn lemma_defines_concat(a: Seq<IRStmtV>, b: Seq<IRStmtV>, v: Seq<char>)
    ensures
        defines(a + b, v) == (defines(a, v) || defines(b, v)),
{
    if defines(a, v) {
        let m = choose|m: int| 0 <= m < a.len() && (#[trigger] a[m]) is Compute && a[m]->Compute_0.var_name == v;
        assert((a + b)[m] == a[m]);
    }
    if defines(b, v) {
        let m = choose|m: int| 0 <= m < b.len() && (#[trigger] b[m]) is Compute && b[m]->Compute_0.var_name == v;
        assert((a + b)[a.len() + m] == b[m]);
    }
    if defines(a + b, v) {
        let m = choose|m: int| 0 <= m < (a + b).len() && (#[trigger] (a + b)[m]) is Compute && (a
            + b)[m]->Compute_0.var_name == v;
        if m < a.len() {
            assert(a[m] == (a + b)[m]);
        } else {
            assert(b[m - a.len()] == (a + b)[m]);
        }
    }
}

/// Reading within `a`, then within `b` given what `a` defines, is reading
/// within `a + b`.
proof fn lemma_reads_concat(a: Seq<IRStmtV>, b: Seq<IRStmtV>, known: Set<Seq<char>>)
    requires
        reads_defined(a, known),
        reads_defined(b, known + Set::new(|v: Seq<char>| defines(a, v))),
    ensures
        reads_defined(a + b, known),
{
    let s = a + b;
    assert forall|k: int, j: int|
        0 <= k < s.len() && s[k] is Compute && 0 <= j < op_reads(s[k]->Compute_0.op).len() implies known.contains(
            #[trigger] op_reads(s[k]->Compute_0.op)[j],
        ) || defines(s.take(k), op_reads(s[k]->Compute_0.op)[j]) by {
        let r = op_reads(s[k]->Compute_0.op)[j];
        if k < a.len() {
            assert(s[k] == a[k]);
            assert(s.take(k) =~= a.take(k));
        } else {
            let k2 = k - a.len();
            assert(s[k] == b[k2]);
            assert(s.take(k) =~= a + b.take(k2));
            lemma_defines_concat(a, b.take(k2), r);
        }
    }
}

/// Appending a computation whose reads are known or defined keeps reading
/// within.
proof fn lemma_reads_push(a: Seq<IRStmtV>, st: IRStatementV, known: Set<Seq<char>>)
    requires
        reads_defined(a, known),
        forall|j: int|
            0 <= j < op_reads(st.op).len() ==> known.contains(#[trigger] op_reads(st.op)[j]) || defines(
                a,
                op_reads(st.op)[j],
            ),
    ensures
        reads_defined(a.push(IRStmtV::Compute(st)), known),
        forall|v: Seq<char>| defines(a, v) ==> defines(a.push(IRStmtV::Compute(st)), v),
        defines(a.push(IRStmtV::Compute(st)), st.var_name),
{
    let s = a.push(IRStmtV::Compute(st));
    assert(s[a.len() as int] == IRStmtV::Compute(st));
    assert(s.take(a.len() as int) =~= a);
    assert forall|k: int, j: int|
        0 <= k < s.len() && s[k] is Compute && 0 <= j < op_reads(s[k]->Compute_0.op).len() implies known.contains(
            #[trigger] op_reads(s[k]->Compute_0.op)[j],
        ) || defines(s.take(k), op_reads(s[k]->Compute_0.op)[j]) by {
        if k < a.len() {
            assert(s[k] == a[k]);
            assert(s.take(k) =~= a.take(k));
        }
    }
    assert forall|v: Seq<char>| defines(a, v) implies defines(s, v) by {
        let m = choose|m: int| 0 <= m < a.len() && (#[trigger] a[m]) is Compute && a[m]->Compute_0.var_name == v;
        assert(s[m] == a[m]);
    }
}

/// The sources of `k` operands are `k` nodes.
proof fn lemma_operand_sources_len(g: Graph, id: NodeId, k: nat)
    ensures
        operand_sources(g, id, k) matches Some(s) ==> s.len() == k,
    decreases k,
{
    if k > 0 {
        lemma_operand_sources_len(g, id, (k - 1) as nat);
    }
}

/// Expressions built for operands: one variable per source, each known or
/// defined by the statements built.
proof fn lemma_operands_read_defined(
    g: Graph,
    srcs: Seq<NodeId>,
    names: NameMap,
    counters: Counters,
    vis: Seq<NodeId>,
    known: Set<Seq<char>>,
)
    requires
        names_within(names, known, Seq::empty()),
        read_variables(g).subset_of(known),
    ensures
        ({
            let o = operands_ir(g, srcs, names, counters, vis);
            &&& all_computations(o.emitted)
            &&& reads_defined(o.emitted, known)
            &&& names_within(o.names, known, o.emitted)
            &&& o.vars matches Some(vs) ==> vs.len() == srcs.len() && forall|j: int|
                0 <= j < vs.len() ==> known.contains(#[trigger] vs[j]) || defines(o.emitted, vs[j])
        }),
    decreases g.nodes@.len() - vis.len(), 1nat, srcs.len(),
{
    if srcs.len() > 0 {
        lemma_operands_read_defined(g, srcs.drop_last(), names, counters, vis, known);
        let r = operands_ir(g, srcs.drop_last(), names, counters, vis);
        if let Some(vs) = r.vars {
            let known2 = known + Set::new(|v: Seq<char>| defines(r.emitted, v));
            assert(names_within(r.names, known2, Seq::empty()));
            law_expression_reads_defined(g, srcs.last(), r.names, r.counters, vis, known2);
            let e = expr_ir(g, srcs.last(), r.names, r.counters, vis);
            lemma_reads_concat(r.emitted, e.emitted, known);
            let o = operands_ir(g, srcs, names, counters, vis);
            assert(o.emitted == r.emitted + e.emitted);
            assert forall|m: int| 0 <= m < o.emitted.len() implies (#[trigger] o.emitted[m]) is Compute by {
                if m < r.emitted.len() {
                    assert(o.emitted[m] == r.emitted[m]);
                } else {
                    assert(o.emitted[m] == e.emitted[m - r.emitted.len()]);
                }
            }
            assert forall|v: Seq<char>| defines(r.emitted, v) || defines(e.emitted, v) implies defines(
                o.emitted,
                v,
            ) by {
                lemma_defines_concat(r.emitted, e.emitted, v);
            }
            assert forall|k: NodeId| #[trigger] o.names.contains_key(k) implies known.contains(o.names[k].0)
                || defines(o.emitted, o.names[k].0) by {
                lemma_defines_concat(r.emitted, e.emitted, o.names[k].0);
            }
            if let Some(ws) = o.vars {
                assert forall|j: int| 0 <= j < ws.len() implies known.contains(#[trigger] ws[j]) || defines(
                    o.emitted,
                    ws[j],
                ) by {
                    lemma_defines_concat(r.emitted, e.emitted, ws[j]);
                    if j < vs.len() {
                        assert(ws[j] == vs[j]);
                    }
                }
            }
        }
    }
}

/// Every computation of a built expression reads only variables that are
/// `known` (which must hold every variable already named and every
/// program variable of the graph) or that an earlier computation of the
/// expression defines; so does the expression's result, and so does every
/// name recorded afterwards.
pub proof fn law_expression_reads_defined(
    g: Graph,
    id: NodeId,
    names: NameMap,
    counters: Counters,
    vis: Seq<NodeId>,
    known: Set<Seq<char>>,
)
    requires
        names_within(names, known, Seq::empty()),
        read_variables(g).subset_of(known),
    ensures
        ({
            let e = expr_ir(g, id, names, counters, vis);
            &&& all_computations(e.emitted)
            &&& reads_defined(e.emitted, known)
            &&& names_within(e.names, known, e.emitted)
            &&& e.value matches Some(v) ==> known.contains(v.0) || defines(e.emitted, v.0)
        }),
    decreases g.nodes@.len() - vis.len(), 0nat, 0nat,
{
    let e = expr_ir(g, id, names, counters, vis);
    if !vis.contains(id) && !names.contains_key(id) && g.kinds().contains_key(id) && vis.len()
        < g.nodes@.len() {
        let k = g.kinds()[id];
        match k {
            NodeKind::Number(v) => {
                assert(e.emitted[0] is Compute);
                assert(e.emitted.take(0) =~= Seq::<IRStmtV>::empty());
                assert(defines(e.emitted, e.emitted[0]->Compute_0.var_name));
            },
            NodeKind::GetVariable(v) => {
                assert(read_variables(g).contains(v@));
            },
            _ => {
                if is_operation(k) {
                    lemma_operand_sources_len(g, id, arity(k));
                    if let Some(srcs) = operand_sources(g, id, arity(k)) {
                        lemma_operands_read_defined(g, srcs, names, counters, vis.push(id), known);
                        let o = operands_ir(g, srcs, names, counters, vis.push(id));
                        if let Some(vs) = o.vars {
                            let (name, ty, op, c) = operation_result(k, vs, o.counters);
                            let st = IRStatementV { var_name: name, ir_type: ty, op };
                            assert forall|j: int| 0 <= j < op_reads(st.op).len() implies known.contains(
                                #[trigger] op_reads(st.op)[j],
                            ) || defines(o.emitted, op_reads(st.op)[j]) by {
                                assert(op_reads(st.op)[j] == vs[j]);
                            }
                            lemma_reads_push(o.emitted, st, known);
                            let em = o.emitted.push(IRStmtV::Compute(st));
                            assert forall|m: int| 0 <= m < em.len() implies (#[trigger] em[m]) is Compute by {
                                if m < o.emitted.len() {
                                    assert(em[m] == o.emitted[m]);
                                }
                            }
                        }
                    }
                }
            },
        }
    }
}

/// Whether a statement defines `v` in its own block: a computation's or a
/// call's result variable.
pub open spec fn stmt_defines(st: IRStmtV, v: Seq<char>) -> bool {
    match st {
        IRStmtV::Compute(c) => c.var_name == v,
        IRStmtV::CallFunction { var_name, .. } => var_name == v,
        _ => false,
    }
}

/// The variables a statement reads itself (a loop reads inside its
/// blocks).
pub open spec fn stmt_reads(st: IRStmtV) -> Seq<Seq<char>> {
    match st {
        IRStmtV::Compute(c) => op_reads(c.op),
        IRStmtV::SetVar { value_var, .. } => seq![value_var],
        IRStmtV::Print { value_var } => seq![value_var],
        IRStmtV::CallFunction { args, .. } => args,
        IRStmtV::Return(v) => seq![v],
        IRStmtV::PluginCall { arg_vars, .. } => arg_vars,
        _ => Seq::empty(),
    }
}

/// `known` together with what the statements of a block define.
pub open spec fn visible(known: Set<Seq<char>>, stmts: Seq<IRStmtV>) -> Set<Seq<char>> {
    known + Set::new(
        |v: Seq<char>| exists|m: int| 0 <= m < stmts.len() && stmt_defines(#[trigger] stmts[m], v),
    )
}

/// Whether every statement of a block, and of the blocks inside it, reads
/// only variables that are `known` or defined before it in its block or
/// in an enclosing one.
pub open spec fn block_ok(ss: Seq<IRStmtV>, known: Set<Seq<char>>) -> bool
    decreases ss,
{
    if ss.len() == 0 {
        true
    } else {
        let vis = visible(known, ss.drop_last());
        &&& block_ok(ss.drop_last(), known)
        &&& forall|j: int| 0 <= j < stmt_reads(ss.last()).len() ==> vis.contains(
            #[trigger] stmt_reads(ss.last())[j],
        )
        &&& stmt_ok(ss.last(), vis)
    }
}

/// Whether the blocks inside a statement read only what is visible: a
/// loop's condition block, its condition variable, and its body.
pub open spec fn stmt_ok(st: IRStmtV, known: Set<Seq<char>>) -> bool
    decreases st,
{
    match st {
        IRStmtV::While { cond_lines, cond_var, body } => block_ok(cond_lines, known) && visible(
            known,
            cond_lines,
        ).contains(cond_var) && block_ok(body, known),
        _ => true,
    }
}

/// What is visible after `a` and then `b`.
proof fn lemma_visible_concat(known: Set<Seq<char>>, a: Seq<IRStmtV>, b: Seq<IRStmtV>)
    ensures
        visible(visible(known, a), b) == visible(known, a + b),
        visible(known, a).subset_of(visible(known, a + b)),
{
    assert forall|v: Seq<char>| visible(visible(known, a), b).contains(v) == visible(known, a + b).contains(v) by {
        if exists|m: int| 0 <= m < a.len() && stmt_defines(#[trigger] a[m], v) {
            let m = choose|m: int| 0 <= m < a.len() && stmt_defines(#[trigger] a[m], v);
            assert((a + b)[m] == a[m]);
        }
        if exists|m: int| 0 <= m < b.len() && stmt_defines(#[trigger] b[m], v) {
            let m = choose|m: int| 0 <= m < b.len() && stmt_defines(#[trigger] b[m], v);
            assert((a + b)[a.len() + m] == b[m]);
        }
        if exists|m: int| 0 <= m < (a + b).len() && stmt_defines(#[trigger] (a + b)[m], v) {
            let m = choose|m: int| 0 <= m < (a + b).len() && stmt_defines(#[trigger] (a + b)[m], v);
            if m < a.len() {
                assert(a[m] == (a + b)[m]);
            } else {
                assert(b[m - a.len()] == (a + b)[m]);
            }
        }
    }
    assert(visible(visible(known, a), b) =~= visible(known, a + b));
}

/// Knowing more keeps a block reading only what is visible.
proof fn lemma_block_ok_more(ss: Seq<IRStmtV>, k1: Set<Seq<char>>, k2: Set<Seq<char>>)
    requires
        block_ok(ss, k1),
        k1.subset_of(k2),
    ensures
        block_ok(ss, k2),
    decreases ss,
{
    if ss.len() > 0 {
        lemma_block_ok_more(ss.drop_last(), k1, k2);
        let v1 = visible(k1, ss.drop_last());
        let v2 = visible(k2, ss.drop_last());
        assert(v1.subset_of(v2));
        lemma_stmt_ok_more(ss.last(), v1, v2);
    }
}

/// Knowing more keeps a statement's blocks reading only what is visible.
proof fn lemma_stmt_ok_more(st: IRStmtV, k1: Set<Seq<char>>, k2: Set<Seq<char>>)
    requires
        stmt_ok(st, k1),
        k1.subset_of(k2),
    ensures
        stmt_ok(st, k2),
    decreases st,
{
    if let IRStmtV::While { cond_lines, cond_var, body } = st {
        lemma_block_ok_more(cond_lines, k1, k2);
        lemma_block_ok_more(body, k1, k2);
        assert(visible(k1, cond_lines).subset_of(visible(k2, cond_lines)));
    }
}

/// A block followed by one that reads within what the first leaves
/// visible reads within.
proof fn lemma_block_concat(a: Seq<IRStmtV>, b: Seq<IRStmtV>, known: Set<Seq<char>>)
    requires
        block_ok(a, known),
        block_ok(b, visible(known, a)),
    ensures
        block_ok(a + b, known),
    decreases b.len(),
{
    if b.len() == 0 {
        assert(a + b =~= a);
    } else {
        let bi = b.drop_last();
        lemma_block_concat(a, bi, known);
        assert((a + b).drop_last() =~= a + bi);
        assert((a + b).last() == b.last());
        lemma_visible_concat(known, a, bi);
    }
}

/// Computations whose reads are known or defined earlier read within.
proof fn lemma_computations_ok(ss: Seq<IRStmtV>, known: Set<Seq<char>>)
    requires
        all_computations(ss),
        reads_defined(ss, known),
    ensures
        block_ok(ss, known),
        forall|v: Seq<char>| defines(ss, v) ==> visible(known, ss).contains(v),
    decreases ss.len(),
{
    assert forall|v: Seq<char>| defines(ss, v) implies visible(known, ss).contains(v) by {
        let m = choose|m: int| 0 <= m < ss.len() && (#[trigger] ss[m]) is Compute && ss[m]->Compute_0.var_name == v;
        assert(stmt_defines(ss[m], v));
    }
    if ss.len() > 0 {
        let init = ss.drop_last();
        assert forall|k: int, j: int|
            0 <= k < init.len() && init[k] is Compute && 0 <= j < op_reads(init[k]->Compute_0.op).len() implies known.contains(
                #[trigger] op_reads(init[k]->Compute_0.op)[j],
            ) || defines(init.take(k), op_reads(init[k]->Compute_0.op)[j]) by {
            assert(init[k] == ss[k]);
            assert(init.take(k) =~= ss.take(k));
        }
        assert forall|m: int| 0 <= m < init.len() implies (#[trigger] init[m]) is Compute by {
            assert(init[m] == ss[m]);
        }
        lemma_computations_ok(init, known);
        let last = ss.len() - 1;
        assert(ss[last] is Compute);
        assert(ss.take(last) =~= init);
        assert forall|j: int| 0 <= j < stmt_reads(ss.last()).len() implies visible(known, init).contains(
            #[trigger] stmt_reads(ss.last())[j],
        ) by {
            assert(stmt_reads(ss.last()) == op_reads(ss[last]->Compute_0.op));
            let r = op_reads(ss[last]->Compute_0.op)[j];
            assert(known.contains(r) || defines(ss.take(last), r));
        }
        assert(stmt_ok(ss.last(), visible(known, init)));
    }
}

/// The value feeding a statement input: its computations read within,
/// its variable is visible after them, and so is every name recorded.
proof fn lemma_input_ok(
    g: Graph,
    id: NodeId,
    index: usize,
    names: NameMap,
    counters: Counters,
    default: Seq<char>,
    known: Set<Seq<char>>,
)
    requires
        read_variables(g).subset_of(known),
        known.contains(default),
        forall|k: NodeId| #[trigger] names.contains_key(k) ==> known.contains(names[k].0),
    ensures
        ({
            let v = input_ir(g, id, index, names, counters, default);
            &&& block_ok(v.emitted, known)
            &&& visible(known, v.emitted).contains(v.var)
            &&& forall|k: NodeId| #[trigger] v.names.contains_key(k) ==> visible(known, v.emitted).contains(v.names[k].0)
        }),
{
    if let Some(src) = first_source(g.connections@, data_input(id, index)) {
        law_expression_reads_defined(g, src.node_id, names, counters, Seq::empty(), known);
        let e = expr_ir(g, src.node_id, names, counters, Seq::empty());
        lemma_computations_ok(e.emitted, known);
    } else {
        assert(block_ok(Seq::<IRStmtV>::empty(), known));
    }
}

/// Appending a statement that reads within keeps the block reading
/// within, and what it defines becomes visible.
proof fn lemma_block_push(a: Seq<IRStmtV>, st: IRStmtV, known: Set<Seq<char>>)
    requires
        block_ok(a, known),
        forall|j: int| 0 <= j < stmt_reads(st).len() ==> visible(known, a).contains(#[trigger] stmt_reads(st)[j]),
        stmt_ok(st, visible(known, a)),
    ensures
        block_ok(a.push(st), known),
        visible(known, a).subset_of(visible(known, a.push(st))),
        forall|v: Seq<char>| stmt_defines(st, v) ==> visible(known, a.push(st)).contains(v),
{
    assert(a.push(st).drop_last() =~= a);
    assert(a.push(st) =~= a + seq![st]);
    lemma_visible_concat(known, a, seq![st]);
    assert forall|v: Seq<char>| stmt_defines(st, v) implies visible(known, a.push(st)).contains(v) by {
        assert(a.push(st)[a.len() as int] == st);
    }
}

/// The statements of a Print node read within, and every name recorded
/// is visible after them.
proof fn lemma_print_ok(g: Graph, id: NodeId, names: NameMap, counters: Counters, known: Set<Seq<char>>)
    requires
        read_variables(g).subset_of(known),
        forall|k: NodeId| #[trigger] names.contains_key(k) ==> known.contains(names[k].0),
    ensures
        ({
            let p = print_ir(g, id, names, counters);
            &&& block_ok(p.stmts, known)
            &&& forall|k: NodeId| #[trigger] p.names.contains_key(k) ==> visible(known, p.stmts).contains(p.names[k].0)
        }),
{
    match first_source(g.connections@, data_input(id, 0)) {
        None => {
            lemma_block_push(Seq::empty(), IRStmtV::Comment(print_unwired(id)), known);
            assert(seq![IRStmtV::Comment(print_unwired(id))] =~= Seq::<IRStmtV>::empty().push(
                IRStmtV::Comment(print_unwired(id)),
            ));
        },
        Some(src) => {
            law_expression_reads_defined(g, src.node_id, names, counters, Seq::empty(), known);
            let e = expr_ir(g, src.node_id, names, counters, Seq::empty());
            lemma_computations_ok(e.emitted, known);
            let last = match e.value {
                Some((v, _)) => IRStmtV::Print { value_var: v },
                None => IRStmtV::Comment(print_failed(id)),
            };
            lemma_block_push(e.emitted, last, known);
        },
    }
}

/// The arguments of a plugin node: their statements read within, and each
/// argument and every name recorded is visible after them.
proof fn lemma_args_ok(g: Graph, id: NodeId, n: nat, names: NameMap, counters: Counters, known: Set<Seq<char>>)
    requires
        read_variables(g).subset_of(known),
        known.contains("0.0"@),
        forall|k: NodeId| #[trigger] names.contains_key(k) ==> known.contains(names[k].0),
    ensures
        ({
            let a = plugin_args_ir(g, id, n, names, counters);
            &&& block_ok(a.emitted, known)
            &&& forall|j: int| 0 <= j < a.vars.len() ==> visible(known, a.emitted).contains(#[trigger] a.vars[j])
            &&& forall|k: NodeId| #[trigger] a.names.contains_key(k) ==> visible(known, a.emitted).contains(a.names[k].0)
        }),
    decreases n,
{
    if n > 0 {
        lemma_args_ok(g, id, (n - 1) as nat, names, counters, known);
        let r = plugin_args_ir(g, id, (n - 1) as nat, names, counters);
        let k1 = visible(known, r.emitted);
        lemma_input_ok(g, id, (n - 1) as usize, r.names, r.counters, "0.0"@, k1);
        let x = input_ir(g, id, (n - 1) as usize, r.names, r.counters, "0.0"@);
        lemma_block_concat(r.emitted, x.emitted, known);
        lemma_visible_concat(known, r.emitted, x.emitted);
        let a = plugin_args_ir(g, id, n, names, counters);
        assert forall|j: int| 0 <= j < a.vars.len() implies visible(known, a.emitted).contains(#[trigger] a.vars[j]) by {
            if j < r.vars.len() {
                assert(a.vars[j] == r.vars[j]);
            }
        }
    } else {
        assert(block_ok(Seq::<IRStmtV>::empty(), known));
    }
}

/// The statements of a statement node other than a loop read within, and
/// every name recorded is visible after them.
proof fn lemma_step_ok(g: Graph, id: NodeId, names: NameMap, counters: Counters, known: Set<Seq<char>>)
    requires
        read_variables(g).subset_of(known),
        known.contains("0.0"@),
        forall|k: NodeId| #[trigger] names.contains_key(k) ==> known.contains(names[k].0),
    ensures
        ({
            let s = step_ir(g, id, names, counters);
            &&& block_ok(s.stmts, known)
            &&& forall|k: NodeId| #[trigger] s.names.contains_key(k) ==> visible(known, s.stmts).contains(s.names[k].0)
        }),
{
    let s = step_ir(g, id, names, counters);
    match g.kinds()[id] {
        NodeKind::SetVariable(name) => {
            lemma_input_ok(g, id, 0, names, counters, "0.0"@, known);
            let v = input_ir(g, id, 0, names, counters, "0.0"@);
            lemma_block_push(v.emitted, IRStmtV::SetVar { name: name@, value_var: v.var }, known);
        },
        NodeKind::Print => {
            lemma_print_ok(g, id, names, counters, known);
        },
        NodeKind::FunctionCall { name } => {
            lemma_input_ok(g, id, 0, names, counters, "0.0"@, known);
            let a = input_ir(g, id, 0, names, counters, "0.0"@);
            let k1 = visible(known, a.emitted);
            lemma_input_ok(g, id, 1, a.names, a.counters, "0.0"@, k1);
            let b = input_ir(g, id, 1, a.names, a.counters, "0.0"@);
            lemma_block_concat(a.emitted, b.emitted, known);
            lemma_visible_concat(known, a.emitted, b.emitted);
            let c = b.counters;
            let call = IRStmtV::CallFunction {
                var_name: counter_name("call"@, c.4),
                func_name: name@,
                args: seq![a.var, b.var],
            };
            lemma_block_push(a.emitted + b.emitted, call, known);
            assert(stmt_defines(call, counter_name("call"@, c.4)));
        },
        NodeKind::Return => {
            lemma_input_ok(g, id, 0, names, counters, "0.0"@, known);
            let v = input_ir(g, id, 0, names, counters, "0.0"@);
            lemma_block_push(v.emitted, IRStmtV::Return(v.var), known);
        },
        NodeKind::Plugin(inst) => {
            if let Some(def) = spec_plugin_def(inst.plugin_id) {
                lemma_args_ok(g, id, def.data_inputs.len(), names, counters, known);
                let a = plugin_args_ir(g, id, def.data_inputs.len(), names, counters);
                let call = IRStmtV::PluginCall {
                    plugin_id: inst.plugin_id,
                    node_type: inst.node_type,
                    config: strs(inst.config.values@),
                    arg_vars: a.vars,
                    out_vars: plugin_out_vars(inst.node_type, id, def.data_outputs.len()),
                };
                lemma_block_push(a.emitted, call, known);
            } else {
                assert(block_ok(Seq::<IRStmtV>::empty(), known));
            }
        },
        _ => {
            assert(block_ok(Seq::<IRStmtV>::empty(), known));
        },
    }
}

/// Building a chain after statements `before` that read within, with
/// every name recorded visible after them, gives a block that reads
/// within.
proof fn lemma_chain_ok(
    g: Graph,
    current: Option<NodeId>,
    names: NameMap,
    counters: Counters,
    steps: nat,
    stack: Seq<NodeId>,
    before: Seq<IRStmtV>,
    known: Set<Seq<char>>,
)
    requires
        read_variables(g).subset_of(known),
        known.contains("0.0"@),
        known.contains("false"@),
        block_ok(before, known),
        forall|k: NodeId| #[trigger] names.contains_key(k) ==> visible(known, before).contains(names[k].0),
    ensures
        block_ok(before + chain_ir(g, current, names, counters, steps, stack).stmts, known),
    decreases g.nodes@.len() - stack.len(), MAX_CHAIN_STEPS - steps,
{
    let out = chain_ir(g, current, names, counters, steps, stack);
    let kb = visible(known, before);
    assert(known.subset_of(kb));
    match current {
        None => {
            assert(before + out.stmts =~= before);
        },
        Some(id) => {
            if steps >= MAX_CHAIN_STEPS {
                lemma_block_push(before, IRStmtV::Comment(chain_stopped()), known);
                assert(before + out.stmts =~= before.push(IRStmtV::Comment(chain_stopped())));
            } else if !g.kinds().contains_key(id) {
                assert(before + out.stmts =~= before);
            } else if g.kinds()[id] is WhileLoop {
                if stack.contains(id) || stack.len() >= g.nodes@.len() {
                    assert(before + out.stmts =~= before);
                } else {
                    lemma_input_ok(g, id, 0, Map::empty(), counters, "false"@, kb);
                    let c = input_ir(g, id, 0, Map::empty(), counters, "false"@);
                    let body_start = first_target(g.connections@, exec_output(id, 0));
                    assert(block_ok(Seq::<IRStmtV>::empty(), kb));
                    lemma_chain_ok(g, body_start, Map::empty(), c.counters, 0, stack.push(id), Seq::empty(), kb);
                    let body = chain_ir(g, body_start, Map::empty(), c.counters, 0, stack.push(id));
                    assert(Seq::<IRStmtV>::empty() + body.stmts =~= body.stmts);
                    let w = IRStmtV::While { cond_lines: c.emitted, cond_var: c.var, body: body.stmts };
                    lemma_block_push(before, w, known);
                    let before2 = before.push(w);
                    let rest_start = first_target(g.connections@, exec_output(id, 1));
                    lemma_chain_ok(g, rest_start, names, body.counters, steps + 1, stack, before2, known);
                    let rest = chain_ir(g, rest_start, names, body.counters, steps + 1, stack);
                    assert(before + out.stmts =~= before2 + rest.stmts);
                }
            } else {
                lemma_step_ok(g, id, names, counters, kb);
                let st = step_ir(g, id, names, counters);
                lemma_block_concat(before, st.stmts, known);
                lemma_visible_concat(known, before, st.stmts);
                let before2 = before + st.stmts;
                lemma_chain_ok(g, next_of(g, id), st.names, st.counters, steps + 1, stack, before2, known);
                let rest = chain_ir(g, next_of(g, id), st.names, st.counters, steps + 1, stack);
                assert(before + out.stmts =~= before2 + rest.stmts);
            }
        },
    }
}

/// The statements of Print nodes built one after another read within, and
/// every name recorded is visible after them.
proof fn lemma_prints_ok(g: Graph, ids: Seq<NodeId>, counters: Counters, known: Set<Seq<char>>)
    requires
        read_variables(g).subset_of(known),
    ensures
        ({
            let p = prints_ir(g, ids, Map::empty(), counters);
            &&& block_ok(p.stmts, known)
            &&& forall|k: NodeId| #[trigger] p.names.contains_key(k) ==> visible(known, p.stmts).contains(p.names[k].0)
        }),
    decreases ids.len(),
{
    if ids.len() == 0 {
        assert(block_ok(Seq::<IRStmtV>::empty(), known));
    } else {
        lemma_prints_ok(g, ids.drop_last(), counters, known);
        let r = prints_ir(g, ids.drop_last(), Map::empty(), counters);
        let k1 = visible(known, r.stmts);
        lemma_print_ok(g, ids.last(), r.names, r.counters, k1);
        let p = print_ir(g, ids.last(), r.names, r.counters);
        lemma_block_concat(r.stmts, p.stmts, known);
        lemma_visible_concat(known, r.stmts, p.stmts);
    }
}

/// Every function body compiled so far reads within.
proof fn lemma_functions_ok(g: Graph, n: nat, counters: Counters, known: Set<Seq<char>>)
    requires
        read_variables(g).subset_of(known),
        known.contains("0.0"@),
        known.contains("false"@),
        n <= g.nodes@.len(),
    ensures
        ({
            let f = functions_ir(g, n, counters);
            forall|i: int| 0 <= i < f.functions.len() ==> block_ok(#[trigger] f.functions[i].body, known)
        }),
    decreases n,
{
    if n > 0 {
        lemma_functions_ok(g, (n - 1) as nat, counters, known);
        let r = functions_ir(g, (n - 1) as nat, counters);
        let node = g.nodes@[n - 1];
        if let NodeKind::FunctionDef { name, params } = node.kind {
            assert(block_ok(Seq::<IRStmtV>::empty(), known));
            lemma_chain_ok(g, body_start(g, node.id), Map::empty(), r.counters, 0, Seq::empty(), Seq::empty(), known);
            let body = chain_ir(g, body_start(g, node.id), Map::empty(), r.counters, 0, Seq::empty());
            assert(Seq::<IRStmtV>::empty() + body.stmts =~= body.stmts);
            let f = functions_ir(g, n, counters);
            assert forall|i: int| 0 <= i < f.functions.len() implies block_ok(#[trigger] f.functions[i].body, known) by {
                if i < r.functions.len() {
                    assert(f.functions[i] == r.functions[i]);
                }
            }
        }
    }
}

/// What a compiled program may read without defining it: the program
/// variables that its Get Variable nodes read, and the literal defaults
/// of unwired inputs.
pub open spec fn program_known(g: Graph) -> Set<Seq<char>> {
    read_variables(g) + set!["0.0"@, "false"@]
}

/// Compiled programs never read a temporary before computing it: in every
/// function body and in the main statements, each statement reads only
/// program variables, literal defaults, or variables that an earlier
/// statement of its own block or of an enclosing block defines.
pub proof fn law_program_reads_defined(g: Graph)
    ensures
        ({
            let ir = full_ir(g);
            &&& forall|i: int| 0 <= i < ir.0.len() ==> block_ok(#[trigger] ir.0[i].body, program_known(g))
            &&& block_ok(ir.1, program_known(g))
        }),
{
    let known = program_known(g);
    assert(known.contains("0.0"@));
    assert(known.contains("false"@));
    lemma_functions_ok(g, g.nodes@.len(), (0, 0, 0, 0, 0, 0), known);
    let f = functions_ir(g, g.nodes@.len(), (0, 0, 0, 0, 0, 0));
    match first_start(g.nodes@) {
        Some(s) => {
            assert(block_ok(Seq::<IRStmtV>::empty(), known));
            lemma_chain_ok(g, body_start(g, s), Map::empty(), f.counters, 0, Seq::empty(), Seq::empty(), known);
            assert(Seq::<IRStmtV>::empty() + chain_ir(g, body_start(g, s), Map::empty(), f.counters, 0, Seq::empty()).stmts
                =~= chain_ir(g, body_start(g, s), Map::empty(), f.counters, 0, Seq::empty()).stmts);
        },
        None => {
            lemma_prints_ok(g, print_ids(g.nodes@), f.counters, known);
        },
    }
}

} // verus!
