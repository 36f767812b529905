//! What an operation node compiles to: a computation by the node's own
//! operator, over the variables of the nodes wired to its inputs, in input
//! order, with the value type of that operator.
use vstd::prelude::*;

use crate::compile::{arity, expr_ir, is_operation, operand_sources, operands_ir, NameMap, Counters};
use crate::graph::{data_input, first_source, Graph};
use crate::ir::{IROpV, IRStatementV, IRStmtV, IRType};
use crate::laws::law_names_are_kept;
use crate::node::NodeKind;
use crate::types::NodeId;

verus! {

/// The computation that an operation node of kind `k` makes from the
/// variables `vs` of its inputs, in order: arithmetic, comparison and logic
/// by the node's own operation, negation of its one input, and a branch
/// that picks its second input when its first holds and its third
/// otherwise.
pub open spec fn kind_op(k: NodeKind, vs: Seq<Seq<char>>) -> IROpV {
    match k {
        NodeKind::Add => IROpV::Add(vs[0], vs[1]),
        NodeKind::Sub => IROpV::Sub(vs[0], vs[1]),
        NodeKind::Mul => IROpV::Mul(vs[0], vs[1]),
        NodeKind::Div => IROpV::Div(vs[0], vs[1]),
        NodeKind::Compare(o) => IROpV::Compare(o, vs[0], vs[1]),
        NodeKind::And => IROpV::And(vs[0], vs[1]),
        NodeKind::Or => IROpV::Or(vs[0], vs[1]),
        NodeKind::Not => IROpV::Not(vs[0]),
        _ => IROpV::Branch { cond: vs[0], then_val: vs[1], else_val: vs[2] },
    }
}

/// The value type of an operation node: true or false for comparison and
/// logic, a number for arithmetic and branches.
pub open spec fn kind_type(k: NodeKind) -> IRType {
    match k {
        NodeKind::Compare(_) | NodeKind::And | NodeKind::Or | NodeKind::Not => IRType::Bool,
        _ => IRType::Number,
    }
}

/// The variables that `names` records for the nodes wired to data inputs
/// `0..n` of `id`.
pub open spec fn input_vars(g: Graph, id: NodeId, n: nat, names: NameMap) -> Seq<Seq<char>> {
    Seq::new(n, |j: int| names[first_source(g.connections@, data_input(id, j as usize))->0.node_id].0)
}

/// The sources of `k` inputs are the nodes wired to inputs `0..k`.
proof fn lemma_sources_wired(g: Graph, id: NodeId, k: nat)
    requires
        k <= 3,
    ensures
        operand_sources(g, id, k) matches Some(s) ==> s.len() == k && forall|j: int|
            0 <= j < k ==> ((#[trigger] first_source(g.connections@, data_input(id, j as usize))) matches Some(p)
                && p.node_id == s[j]),
    decreases k,
{
    if k > 0 {
        lemma_sources_wired(g, id, (k - 1) as nat);
        if let Some(s) = operand_sources(g, id, k) {
            let s0 = operand_sources(g, id, (k - 1) as nat)->0;
            assert(s == s0.push(first_source(g.connections@, data_input(id, (k - 1) as usize))->0.node_id));
            assert forall|j: int| 0 <= j < k implies ((#[trigger] first_source(g.connections@, data_input(id, j as usize)))
                matches Some(p) && p.node_id == s[j]) by {
                if j < k - 1 {
                    assert(s[j] == s0[j]);
                }
            }
        }
    }
}

/// Built operands: one variable per source, recorded for that source, and
/// no source on the path.
proof fn lemma_operands_recorded(
    g: Graph,
    srcs: Seq<NodeId>,
    names: NameMap,
    counters: Counters,
    vis: Seq<NodeId>,
)
    ensures
        ({
            let o = operands_ir(g, srcs, names, counters, vis);
            o.vars matches Some(vs) ==> vs.len() == srcs.len() && forall|j: int|
                0 <= j < srcs.len() ==> o.names.contains_key(#[trigger] srcs[j]) && o.names[srcs[j]].0 == vs[j]
                    && !vis.contains(srcs[j])
        }),
    decreases srcs.len(),
{
    if srcs.len() > 0 {
        let init = srcs.drop_last();
        lemma_operands_recorded(g, init, names, counters, vis);
        let r = operands_ir(g, init, names, counters, vis);
        if let Some(vs0) = r.vars {
            let last = srcs.last();
            law_names_are_kept(g, last, r.names, r.counters, vis);
            let e = expr_ir(g, last, r.names, r.counters, vis);
            let o = operands_ir(g, srcs, names, counters, vis);
            if let Some(vs) = o.vars {
                assert forall|j: int| 0 <= j < srcs.len() implies o.names.contains_key(#[trigger] srcs[j])
                    && o.names[srcs[j]].0 == vs[j] && !vis.contains(srcs[j]) by {
                    if j < init.len() {
                        assert(srcs[j] == init[j]);
                        assert(r.names.contains_key(init[j]));
                        assert(vs[j] == vs0[j]);
                    } else {
                        assert(srcs[j] == last);
                    }
                }
            }
        }
    }
}

/// An operation node that is compiled anew yields, as its last statement,
/// the computation of its result variable by the node's own operator over
/// the variables of the nodes wired to its inputs, in input order, with
/// the operator's value type.
pub proof fn law_operation_computes_its_operator(
    g: Graph,
    id: NodeId,
    names: NameMap,
    counters: Counters,
    vis: Seq<NodeId>,
)
    requires
        g.kinds().contains_key(id),
        is_operation(g.kinds()[id]),
        !vis.contains(id),
        !names.contains_key(id),
    ensures
        ({
            let e = expr_ir(g, id, names, counters, vis);
            let k = g.kinds()[id];
            e.value matches Some(v) ==> {
                &&& v.1 == kind_type(k)
                &&& e.emitted.len() > 0
                &&& e.emitted.last() == IRStmtV::Compute(
                    IRStatementV { var_name: v.0, ir_type: kind_type(k), op: kind_op(k, input_vars(g, id, arity(k), e.names)) },
                )
            }
        }),
{
    let e = expr_ir(g, id, names, counters, vis);
    let k = g.kinds()[id];
    if vis.len() < g.nodes@.len() {
        lemma_sources_wired(g, id, arity(k));
        if let Some(srcs) = operand_sources(g, id, arity(k)) {
            lemma_operands_recorded(g, srcs, names, counters, vis.push(id));
            let o = operands_ir(g, srcs, names, counters, vis.push(id));
            if let Some(vs) = o.vars {
                let iv = input_vars(g, id, arity(k), e.names);
                assert forall|j: int| 0 <= j < arity(k) implies iv[j] == vs[j] by {
                    let p = first_source(g.connections@, data_input(id, j as usize))->0;
                    assert(p.node_id == srcs[j]);
                    assert(vis.push(id)[vis.len() as int] == id);
                    assert(srcs[j] != id);
                }
                assert(iv =~= vs);
            }
        }
    }
}

} // verus!
