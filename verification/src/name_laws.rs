//! Compiled programs never reuse a variable name: each computation and
//! each call is named by a prefix and the next value of its counter, the
//! counters only move forward across a whole compilation while they stay
//! below the top of `usize`, and names from different prefixes or counter
//! values differ.
use vstd::prelude::*;

use crate::compile::{
    arity, counter_name, expr_ir, input_ir, is_operation, operand_sources, operands_ir, operation_result,
    plugin_args_ir, plugin_out_vars, print_failed, print_ir, print_unwired, step_ir, Counters, NameMap,
    body_start, chain_ir, chain_stopped, full_ir, functions_ir, next_of, prints_ir, MAX_CHAIN_STEPS,
};
use crate::graph::{data_input, exec_output, first_source, first_start, first_target, print_ids, Graph};
use crate::plugin::spec_plugin_def;
use crate::scope_laws::{all_computations, law_expression_reads_defined, names_within, read_variables};
use crate::text::strs;
use crate::ir::{IRFunctionV, IROpV, IRStatementV, IRStmtV, IRType};
use crate::node::NodeKind;
use crate::types::NodeId;
use crate::text::{decimal, digit_char};

verus! {

/// The counter that names with prefix `p` draw on (-1 for no prefix the
/// compiler uses): numbers; additions; subtractions and comparisons;
/// multiplications and branches; divisions and calls; logic operations.
pub open spec fn slot_of(p: Seq<char>) -> int {
    if p == "num"@ {
        0
    } else if p == "add"@ {
        1
    } else if p == "sub"@ || p == "cmp"@ {
        2
    } else if p == "mul"@ || p == "branch"@ {
        3
    } else if p == "div"@ || p == "call"@ {
        4
    } else if p == "and"@ || p == "or"@ || p == "not"@ {
        5
    } else {
        -1
    }
}

/// Decimal digits are distinct characters.
proof fn lemma_digit_injective(a: nat, b: nat)
    requires
        a < 10,
        b < 10,
        digit_char(a) == digit_char(b),
    ensures
        a == b,
{
}

/// A decimal rendering has at least one digit, and none is an underscore.
proof fn lemma_decimal_shape(n: nat)
    ensures
        decimal(n).len() >= 1,
        n >= 10 ==> decimal(n).len() >= 2,
        forall|i: int| 0 <= i < decimal(n).len() ==> #[trigger] decimal(n)[i] != '_',
    decreases n,
{
    if n >= 10 {
        lemma_decimal_shape(n / 10);
        let d = decimal(n);
        assert forall|i: int| 0 <= i < d.len() implies #[trigger] d[i] != '_' by {
            if i < d.len() - 1 {
                assert(d[i] == decimal(n / 10)[i]);
            }
        }
    }
}

/// Different numbers have different decimal renderings.
pub proof fn lemma_decimal_injective(a: nat, b: nat)
    requires
        decimal(a) == decimal(b),
    ensures
        a == b,
    decreases a,
{
    lemma_decimal_shape(a);
    lemma_decimal_shape(b);
    if a < 10 && b < 10 {
        assert(decimal(a) == seq![digit_char(a)]);
        assert(decimal(b) == seq![digit_char(b)]);
        assert(seq![digit_char(a)][0] == digit_char(a));
        assert(seq![digit_char(b)][0] == digit_char(b));
        assert(digit_char(a) == digit_char(b));
        lemma_digit_injective(a, b);
    } else if a >= 10 && b >= 10 {
        let da = decimal(a);
        let db = decimal(b);
        assert(da.last() == db.last());
        lemma_digit_injective(a % 10, b % 10);
        assert(da.drop_last() =~= decimal(a / 10));
        assert(db.drop_last() =~= decimal(b / 10));
        lemma_decimal_injective(a / 10, b / 10);
    }
}

/// The compiler's prefixes hold no underscore.
proof fn lemma_prefix_plain(p: Seq<char>)
    requires
        slot_of(p) >= 0,
    ensures
        p.len() >= 2,
        forall|i: int| 0 <= i < p.len() ==> #[trigger] p[i] != '_',
{
    reveal_strlit("num");
    reveal_strlit("add");
    reveal_strlit("sub");
    reveal_strlit("cmp");
    reveal_strlit("mul");
    reveal_strlit("branch");
    reveal_strlit("div");
    reveal_strlit("call");
    reveal_strlit("and");
    reveal_strlit("or");
    reveal_strlit("not");
}

/// A compiler name determines its prefix and its counter value.
pub proof fn lemma_counter_name_injective(p1: Seq<char>, v1: usize, p2: Seq<char>, v2: usize)
    requires
        slot_of(p1) >= 0,
        slot_of(p2) >= 0,
        counter_name(p1, v1) == counter_name(p2, v2),
    ensures
        p1 == p2,
        v1 == v2,
{
    lemma_prefix_plain(p1);
    lemma_prefix_plain(p2);
    let n1 = counter_name(p1, v1);
    let n2 = counter_name(p2, v2);
    assert(n1 == p1 + "_"@ + decimal(v1 as nat));
    reveal_strlit("_");
    if p1.len() < p2.len() {
        assert(n1[p1.len() as int] == '_');
        assert(n2[p1.len() as int] == p2[p1.len() as int]);
    } else if p2.len() < p1.len() {
        assert(n2[p2.len() as int] == '_');
        assert(n1[p2.len() as int] == p1[p2.len() as int]);
    } else {
        assert(n1.subrange(0, p1.len() as int) =~= p1);
        assert(n2.subrange(0, p2.len() as int) =~= p2);
        assert(n1.subrange(p1.len() as int + 1, n1.len() as int) =~= decimal(v1 as nat));
        assert(n2.subrange(p2.len() as int + 1, n2.len() as int) =~= decimal(v2 as nat));
        lemma_decimal_injective(v1 as nat, v2 as nat);
    }
}

/// Counter `s` of a counter tuple.
pub open spec fn ctr(c: Counters, s: int) -> usize {
    if s == 0 {
        c.0
    } else if s == 1 {
        c.1
    } else if s == 2 {
        c.2
    } else if s == 3 {
        c.3
    } else if s == 4 {
        c.4
    } else {
        c.5
    }
}

/// Whether every counter of `c1` is that of `c0` moved forward by at most
/// `k`.
pub open spec fn advanced(c0: Counters, c1: Counters, k: nat) -> bool {
    forall|s: int| 0 <= s < 6 ==> ctr(c0, s) <= #[trigger] ctr(c1, s) && ctr(c1, s) <= ctr(c0, s) + k
}

/// Whether `n` is a compiler name whose counter value lies from `c0` up
/// to, not including, `c1`.
pub open spec fn named_between(n: Seq<char>, c0: Counters, c1: Counters) -> bool {
    exists|p: Seq<char>, v: usize|
        slot_of(p) >= 0 && n == #[trigger] counter_name(p, v) && ctr(c0, slot_of(p)) <= v < ctr(c1, slot_of(p))
}

/// Whether every statement is a computation named between `c0` and `c1`,
/// and no two computations share a name.
pub open spec fn fresh_names(stmts: Seq<IRStmtV>, c0: Counters, c1: Counters) -> bool {
    &&& forall|m: int| 0 <= m < stmts.len() ==> (#[trigger] stmts[m]) is Compute && named_between(
        stmts[m]->Compute_0.var_name,
        c0,
        c1,
    )
    &&& forall|a: int, b: int|
        0 <= a < b < stmts.len() ==> (#[trigger] stmts[a])->Compute_0.var_name != (#[trigger] stmts[b])->Compute_0.var_name
}

/// Whether no counter of `c` passes the top of `usize` in `k` more steps.
pub open spec fn room(c: Counters, k: nat) -> bool {
    forall|s: int| 0 <= s < 6 ==> #[trigger] ctr(c, s) + k <= usize::MAX
}

/// Two compiler names from disjoint counter ranges differ.
proof fn lemma_names_apart(n1: Seq<char>, n2: Seq<char>, c0: Counters, c1: Counters, c2: Counters)
    requires
        named_between(n1, c0, c1),
        named_between(n2, c1, c2),
    ensures
        n1 != n2,
{
    let (p1, v1) = choose|p: Seq<char>, v: usize|
        slot_of(p) >= 0 && n1 == #[trigger] counter_name(p, v) && ctr(c0, slot_of(p)) <= v < ctr(c1, slot_of(p));
    let (p2, v2) = choose|p: Seq<char>, v: usize|
        slot_of(p) >= 0 && n2 == #[trigger] counter_name(p, v) && ctr(c1, slot_of(p)) <= v < ctr(c2, slot_of(p));
    if n1 == n2 {
        lemma_counter_name_injective(p1, v1, p2, v2);
    }
}

/// A name between `c0` and `c1` is between any wider range.
proof fn lemma_named_wider(n: Seq<char>, c0: Counters, c1: Counters, d0: Counters, d1: Counters)
    requires
        named_between(n, c0, c1),
        forall|s: int| 0 <= s < 6 ==> ctr(d0, s) <= #[trigger] ctr(c0, s),
        forall|s: int| 0 <= s < 6 ==> ctr(c1, s) <= #[trigger] ctr(d1, s),
    ensures
        named_between(n, d0, d1),
{
    let (p, v) = choose|p: Seq<char>, v: usize|
        slot_of(p) >= 0 && n == #[trigger] counter_name(p, v) && ctr(c0, slot_of(p)) <= v < ctr(c1, slot_of(p));
    assert(ctr(d0, slot_of(p)) <= ctr(c0, slot_of(p)));
    assert(ctr(c1, slot_of(p)) <= ctr(d1, slot_of(p)));
}

/// Freshly named statements followed by ones named from where they left
/// off are freshly named together.
proof fn lemma_fresh_concat(
    a: Seq<IRStmtV>,
    b: Seq<IRStmtV>,
    c0: Counters,
    c1: Counters,
    c2: Counters,
)
    requires
        fresh_names(a, c0, c1),
        fresh_names(b, c1, c2),
        advanced(c0, c1, a.len()),
        advanced(c1, c2, b.len()),
    ensures
        fresh_names(a + b, c0, c2),
        advanced(c0, c2, a.len() + b.len()),
{
    let s = a + b;
    assert forall|m: int| 0 <= m < s.len() implies (#[trigger] s[m]) is Compute && named_between(
        s[m]->Compute_0.var_name,
        c0,
        c2,
    ) by {
        if m < a.len() {
            assert(s[m] == a[m]);
            lemma_named_wider(a[m]->Compute_0.var_name, c0, c1, c0, c2);
        } else {
            assert(s[m] == b[m - a.len()]);
            lemma_named_wider(b[m - a.len()]->Compute_0.var_name, c1, c2, c0, c2);
        }
    }
    assert forall|x: int, y: int| 0 <= x < y < s.len() implies (#[trigger] s[x])->Compute_0.var_name
        != (#[trigger] s[y])->Compute_0.var_name by {
        if y < a.len() {
            assert(s[x] == a[x] && s[y] == a[y]);
        } else if x >= a.len() {
            assert(s[x] == b[x - a.len()] && s[y] == b[y - a.len()]);
        } else {
            assert(s[x] == a[x] && s[y] == b[y - a.len()]);
            lemma_names_apart(a[x]->Compute_0.var_name, b[y - a.len()]->Compute_0.var_name, c0, c1, c2);
        }
    }
}

/// The prefix that an operation node's variable gets.
pub open spec fn op_prefix(k: NodeKind) -> Seq<char> {
    match k {
        NodeKind::Add => "add"@,
        NodeKind::Sub => "sub"@,
        NodeKind::Mul => "mul"@,
        NodeKind::Div => "div"@,
        NodeKind::Compare(_) => "cmp"@,
        NodeKind::And => "and"@,
        NodeKind::Or => "or"@,
        NodeKind::Not => "not"@,
        _ => "branch"@,
    }
}

/// Naming an operation uses the counter of its prefix and moves that one
/// counter on.
proof fn lemma_operation_named(k: NodeKind, vs: Seq<Seq<char>>, c: Counters)
    requires
        is_operation(k),
        ctr(c, slot_of(op_prefix(k))) < usize::MAX,
    ensures
        ({
            let r = operation_result(k, vs, c);
            let s = slot_of(op_prefix(k));
            &&& s >= 0
            &&& r.0 == counter_name(op_prefix(k), ctr(c, s))
            &&& ctr(r.3, s) == ctr(c, s) + 1
            &&& forall|t: int| 0 <= t < 6 && t != s ==> #[trigger] ctr(r.3, t) == ctr(c, t)
        }),
{
    reveal_strlit("num");
    reveal_strlit("add");
    reveal_strlit("sub");
    reveal_strlit("cmp");
    reveal_strlit("mul");
    reveal_strlit("branch");
    reveal_strlit("div");
    reveal_strlit("call");
    reveal_strlit("and");
    reveal_strlit("or");
    reveal_strlit("not");
    assert("add"@[0] != "num"@[0]);
    assert("sub"@[0] != "num"@[0]);
    assert("sub"@[0] != "add"@[0]);
    assert("cmp"@[0] != "num"@[0]);
    assert("cmp"@[0] != "add"@[0]);
    assert("cmp"@[0] != "sub"@[0]);
    assert("mul"@[0] != "num"@[0]);
    assert("mul"@[0] != "add"@[0]);
    assert("mul"@[0] != "sub"@[0]);
    assert("mul"@[0] != "cmp"@[0]);
    assert("branch"@.len() != "num"@.len());
    assert("branch"@.len() != "add"@.len());
    assert("branch"@.len() != "sub"@.len());
    assert("branch"@.len() != "cmp"@.len());
    assert("branch"@.len() != "mul"@.len());
    assert("div"@[0] != "num"@[0]);
    assert("div"@[0] != "add"@[0]);
    assert("div"@[0] != "sub"@[0]);
    assert("div"@[0] != "cmp"@[0]);
    assert("div"@[0] != "mul"@[0]);
    assert("div"@.len() != "branch"@.len());
    assert("call"@.len() != "num"@.len());
    assert("call"@.len() != "add"@.len());
    assert("call"@.len() != "sub"@.len());
    assert("call"@.len() != "cmp"@.len());
    assert("call"@.len() != "mul"@.len());
    assert("call"@.len() != "branch"@.len());
    assert("call"@.len() != "div"@.len());
    assert("and"@[0] != "num"@[0]);
    assert("and"@[1] != "add"@[1]);
    assert("and"@[0] != "sub"@[0]);
    assert("and"@[0] != "cmp"@[0]);
    assert("and"@[0] != "mul"@[0]);
    assert("and"@.len() != "branch"@.len());
    assert("and"@[0] != "div"@[0]);
    assert("and"@.len() != "call"@.len());
    assert("or"@.len() != "num"@.len());
    assert("or"@.len() != "add"@.len());
    assert("or"@.len() != "sub"@.len());
    assert("or"@.len() != "cmp"@.len());
    assert("or"@.len() != "mul"@.len());
    assert("or"@.len() != "branch"@.len());
    assert("or"@.len() != "div"@.len());
    assert("or"@.len() != "call"@.len());
    assert("or"@.len() != "and"@.len());
    assert("not"@[1] != "num"@[1]);
    assert("not"@[0] != "add"@[0]);
    assert("not"@[0] != "sub"@[0]);
    assert("not"@[0] != "cmp"@[0]);
    assert("not"@[0] != "mul"@[0]);
    assert("not"@.len() != "branch"@.len());
    assert("not"@[0] != "div"@[0]);
    assert("not"@.len() != "call"@.len());
    assert("not"@[0] != "and"@[0]);
    assert("not"@.len() != "or"@.len());
    let r = operation_result(k, vs, c);
    let sl = slot_of(op_prefix(k));
    assert forall|t: int| 0 <= t < 6 && t != sl implies #[trigger] ctr(r.3, t) == ctr(c, t) by {
        if t == 0 {
        } else if t == 1 {
        } else if t == 2 {
        } else if t == 3 {
        } else if t == 4 {
        } else {
        }
    }
}

/// One computation named by the next value of its counter, after freshly
/// named ones, keeps them freshly named.
proof fn lemma_fresh_push(
    a: Seq<IRStmtV>,
    c0: Counters,
    c1: Counters,
    p: Seq<char>,
    c2: Counters,
    ty: IRType,
    op: IROpV,
)
    requires
        fresh_names(a, c0, c1),
        advanced(c0, c1, a.len()),
        slot_of(p) >= 0,
        ctr(c1, slot_of(p)) < usize::MAX,
        ctr(c2, slot_of(p)) == ctr(c1, slot_of(p)) + 1,
        forall|t: int| 0 <= t < 6 && t != slot_of(p) ==> #[trigger] ctr(c2, t) == ctr(c1, t),
    ensures
        fresh_names(
            a.push(IRStmtV::Compute(IRStatementV { var_name: counter_name(p, ctr(c1, slot_of(p))), ir_type: ty, op })),
            c0,
            c2,
        ),
        advanced(c0, c2, a.len() + 1),
{
    let v = ctr(c1, slot_of(p));
    let st = IRStmtV::Compute(IRStatementV { var_name: counter_name(p, v), ir_type: ty, op });
    let b = seq![st];
    assert(slot_of(p) >= 0 && counter_name(p, v) == counter_name(p, v) && ctr(c1, slot_of(p)) <= v < ctr(c2, slot_of(p)));
    assert(named_between(counter_name(p, v), c1, c2));
    assert(fresh_names(b, c1, c2));
    assert(advanced(c1, c2, 1));
    lemma_fresh_concat(a, b, c0, c1, c2);
    assert(a + b =~= a.push(st));
}

/// Nothing named: the counters stay.
proof fn lemma_fresh_empty(c: Counters)
    ensures
        fresh_names(Seq::empty(), c, c),
        advanced(c, c, 0),
{
}

/// Building an expression names each computation with a compiler prefix
/// and the next value of its counter, so no two computations of it share
/// a name; the counters only move forward, by at most the number of
/// computations. This holds whenever no counter passes the top of `usize`
/// on the way.
pub proof fn law_expression_names_distinct(
    g: Graph,
    id: NodeId,
    names: NameMap,
    counters: Counters,
    vis: Seq<NodeId>,
)
    requires
        room(counters, expr_ir(g, id, names, counters, vis).emitted.len()),
    ensures
        ({
            let e = expr_ir(g, id, names, counters, vis);
            &&& fresh_names(e.emitted, counters, e.counters)
            &&& advanced(counters, e.counters, e.emitted.len())
        }),
    decreases g.nodes@.len() - vis.len(), 0nat, 0nat,
{
    let e = expr_ir(g, id, names, counters, vis);
    lemma_fresh_empty(counters);
    if !vis.contains(id) && !names.contains_key(id) && g.kinds().contains_key(id) && vis.len()
        < g.nodes@.len() {
        let k = g.kinds()[id];
        match k {
            NodeKind::Number(v) => {
                reveal_strlit("num");
                assert(ctr(counters, 0) + 1 <= usize::MAX);
                lemma_fresh_push(
                    Seq::empty(),
                    counters,
                    counters,
                    "num"@,
                    e.counters,
                    IRType::Number,
                    IROpV::Literal(v@),
                );
                assert(Seq::<IRStmtV>::empty().push(e.emitted[0]) =~= e.emitted);
            },
            NodeKind::GetVariable(_) => {},
            _ => {
                if is_operation(k) {
                    if let Some(srcs) = operand_sources(g, id, arity(k)) {
                        let o = operands_ir(g, srcs, names, counters, vis.push(id));
                        assert(o.emitted.len() <= e.emitted.len());
                        lemma_operands_names_distinct(g, srcs, names, counters, vis.push(id));
                        if let Some(vs) = o.vars {
                            let sl = slot_of(op_prefix(k));
                            lemma_operation_named(k, vs, o.counters);
                            let r = operation_result(k, vs, o.counters);
                            lemma_fresh_push(o.emitted, counters, o.counters, op_prefix(k), r.3, r.1, r.2);
                        }
                    }
                }
            },
        }
    }
}

/// Building operands in order names computations as building each of them
/// does, from where the previous one left the counters.
proof fn lemma_operands_names_distinct(
    g: Graph,
    srcs: Seq<NodeId>,
    names: NameMap,
    counters: Counters,
    vis: Seq<NodeId>,
)
    requires
        room(counters, operands_ir(g, srcs, names, counters, vis).emitted.len()),
    ensures
        ({
            let o = operands_ir(g, srcs, names, counters, vis);
            &&& fresh_names(o.emitted, counters, o.counters)
            &&& advanced(counters, o.counters, o.emitted.len())
        }),
    decreases g.nodes@.len() - vis.len(), 1nat, srcs.len(),
{
    lemma_fresh_empty(counters);
    if srcs.len() > 0 {
        let o = operands_ir(g, srcs, names, counters, vis);
        let r = operands_ir(g, srcs.drop_last(), names, counters, vis);
        if r.vars is Some {
            let e = expr_ir(g, srcs.last(), r.names, r.counters, vis);
            assert(o.emitted == r.emitted + e.emitted);
            lemma_operands_names_distinct(g, srcs.drop_last(), names, counters, vis);
            assert(room(r.counters, e.emitted.len())) by {
                assert forall|s: int| 0 <= s < 6 implies #[trigger] ctr(r.counters, s) + e.emitted.len() <= usize::MAX by {
                    assert(ctr(r.counters, s) <= ctr(counters, s) + r.emitted.len());
                    assert(ctr(counters, s) + o.emitted.len() <= usize::MAX);
                }
            }
            law_expression_names_distinct(g, srcs.last(), r.names, r.counters, vis);
            lemma_fresh_concat(r.emitted, e.emitted, counters, r.counters, e.counters);
        } else {
            lemma_operands_names_distinct(g, srcs.drop_last(), names, counters, vis);
        }
    }
}

/// The variables that statements define, in order, including inside loop
/// blocks: computations' and calls' results.
pub open spec fn defs_flat(ss: Seq<IRStmtV>) -> Seq<Seq<char>>
    decreases ss,
{
    if ss.len() == 0 {
        Seq::empty()
    } else {
        defs_flat(ss.drop_last()) + stmt_defs_flat(ss.last())
    }
}

/// The variables that one statement defines, including inside its blocks.
pub open spec fn stmt_defs_flat(st: IRStmtV) -> Seq<Seq<char>>
    decreases st,
{
    match st {
        IRStmtV::Compute(c) => seq![c.var_name],
        IRStmtV::CallFunction { var_name, .. } => seq![var_name],
        IRStmtV::While { cond_lines, body, .. } => defs_flat(cond_lines) + defs_flat(body),
        _ => Seq::empty(),
    }
}

/// Whether every name is a compiler name between `c0` and `c1`, and no
/// two are equal.
pub open spec fn fresh_seq(ns: Seq<Seq<char>>, c0: Counters, c1: Counters) -> bool {
    &&& forall|m: int| 0 <= m < ns.len() ==> named_between(#[trigger] ns[m], c0, c1)
    &&& forall|a: int, b: int| 0 <= a < b < ns.len() ==> #[trigger] ns[a] != #[trigger] ns[b]
}

/// What two statement lists define together.
proof fn lemma_defs_concat(a: Seq<IRStmtV>, b: Seq<IRStmtV>)
    ensures
        defs_flat(a + b) == defs_flat(a) + defs_flat(b),
    decreases b.len(),
{
    if b.len() == 0 {
        assert(a + b =~= a);
        assert(defs_flat(a) + defs_flat(b) =~= defs_flat(a));
    } else {
        lemma_defs_concat(a, b.drop_last());
        assert((a + b).drop_last() =~= a + b.drop_last());
        assert((a + b).last() == b.last());
        assert(defs_flat(a) + defs_flat(b.drop_last()) + stmt_defs_flat(b.last()) =~= defs_flat(a) + (
        defs_flat(b.drop_last()) + stmt_defs_flat(b.last())));
    }
}

/// What a statement list with one more statement defines.
proof fn lemma_defs_push(a: Seq<IRStmtV>, st: IRStmtV)
    ensures
        defs_flat(a.push(st)) == defs_flat(a) + stmt_defs_flat(st),
{
    assert(a.push(st).drop_last() =~= a);
}

/// Fresh names followed by names fresh from where they left off are fresh
/// together.
proof fn lemma_fresh_seq_concat(
    a: Seq<Seq<char>>,
    b: Seq<Seq<char>>,
    c0: Counters,
    c1: Counters,
    c2: Counters,
)
    requires
        fresh_seq(a, c0, c1),
        fresh_seq(b, c1, c2),
        advanced(c0, c1, a.len()),
        advanced(c1, c2, b.len()),
    ensures
        fresh_seq(a + b, c0, c2),
        advanced(c0, c2, a.len() + b.len()),
{
    let s = a + b;
    assert forall|m: int| 0 <= m < s.len() implies named_between(#[trigger] s[m], c0, c2) by {
        if m < a.len() {
            assert(s[m] == a[m]);
            lemma_named_wider(a[m], c0, c1, c0, c2);
        } else {
            assert(s[m] == b[m - a.len()]);
            lemma_named_wider(b[m - a.len()], c1, c2, c0, c2);
        }
    }
    assert forall|x: int, y: int| 0 <= x < y < s.len() implies #[trigger] s[x] != #[trigger] s[y] by {
        if y < a.len() {
            assert(s[x] == a[x] && s[y] == a[y]);
        } else if x >= a.len() {
            assert(s[x] == b[x - a.len()] && s[y] == b[y - a.len()]);
        } else {
            assert(s[x] == a[x] && s[y] == b[y - a.len()]);
            lemma_names_apart(a[x], b[y - a.len()], c0, c1, c2);
        }
    }
}

/// Nothing defined: the counters stay.
proof fn lemma_fresh_seq_empty(c: Counters)
    ensures
        fresh_seq(Seq::empty(), c, c),
        advanced(c, c, 0),
{
}

/// Freshly named computations define fresh names, one each.
proof fn lemma_fresh_computations(ss: Seq<IRStmtV>, c0: Counters, c1: Counters)
    requires
        fresh_names(ss, c0, c1),
    ensures
        fresh_seq(defs_flat(ss), c0, c1),
        defs_flat(ss) == ss.map_values(|st: IRStmtV| st->Compute_0.var_name),
    decreases ss.len(),
{
    let f = ss.map_values(|st: IRStmtV| st->Compute_0.var_name);
    if ss.len() > 0 {
        let init = ss.drop_last();
        assert forall|m: int| 0 <= m < init.len() implies (#[trigger] init[m]) is Compute && named_between(
            init[m]->Compute_0.var_name,
            c0,
            c1,
        ) by {
            assert(init[m] == ss[m]);
        }
        assert forall|a: int, b: int| 0 <= a < b < init.len() implies (#[trigger] init[a])->Compute_0.var_name
            != (#[trigger] init[b])->Compute_0.var_name by {
            assert(init[a] == ss[a] && init[b] == ss[b]);
        }
        lemma_fresh_computations(init, c0, c1);
        assert(ss[ss.len() - 1] is Compute);
        let last = ss.last();
        assert(last == IRStmtV::Compute(last->Compute_0));
        assert(stmt_defs_flat(last) == seq![last->Compute_0.var_name]);
        assert(init.map_values(|st: IRStmtV| st->Compute_0.var_name) =~= f.drop_last());
        assert(defs_flat(ss) == defs_flat(init) + stmt_defs_flat(last));
        assert(defs_flat(ss) =~= f);
    }
    assert(defs_flat(ss) =~= f);
    assert forall|m: int| 0 <= m < f.len() implies named_between(#[trigger] f[m], c0, c1) by {
        assert(ss[m] is Compute);
    }
}

/// A name drawn from the next value of its counter is fresh.
proof fn lemma_one_name(p: Seq<char>, c1: Counters, c2: Counters)
    requires
        slot_of(p) >= 0,
        ctr(c1, slot_of(p)) < usize::MAX,
        ctr(c2, slot_of(p)) == ctr(c1, slot_of(p)) + 1,
        forall|t: int| 0 <= t < 6 && t != slot_of(p) ==> #[trigger] ctr(c2, t) == ctr(c1, t),
    ensures
        fresh_seq(seq![counter_name(p, ctr(c1, slot_of(p)))], c1, c2),
        advanced(c1, c2, 1),
{
    let v = ctr(c1, slot_of(p));
    assert(slot_of(p) >= 0 && counter_name(p, v) == counter_name(p, v) && ctr(c1, slot_of(p)) <= v < ctr(c2, slot_of(p)));
    assert(named_between(counter_name(p, v), c1, c2));
}

/// Room for `k` steps after moving forward by `j` of `j + k`.
proof fn lemma_room_after(c0: Counters, c1: Counters, j: nat, k: nat)
    requires
        room(c0, j + k),
        advanced(c0, c1, j),
    ensures
        room(c1, k),
{
    assert forall|s: int| 0 <= s < 6 implies #[trigger] ctr(c1, s) + k <= usize::MAX by {
        assert(ctr(c0, s) + (j + k) <= usize::MAX);
        assert(ctr(c1, s) <= ctr(c0, s) + j);
    }
}

/// Room for fewer steps.
proof fn lemma_room_less(c: Counters, j: nat, k: nat)
    requires
        room(c, k),
        j <= k,
    ensures
        room(c, j),
{
    assert forall|s: int| 0 <= s < 6 implies #[trigger] ctr(c, s) + j <= usize::MAX by {
        assert(ctr(c, s) + k <= usize::MAX);
    }
}

/// Computations define one name each.
proof fn lemma_defs_computations_len(ss: Seq<IRStmtV>)
    requires
        all_computations(ss),
    ensures
        defs_flat(ss).len() == ss.len(),
    decreases ss.len(),
{
    if ss.len() > 0 {
        let init = ss.drop_last();
        assert forall|m: int| 0 <= m < init.len() implies (#[trigger] init[m]) is Compute by {
            assert(init[m] == ss[m]);
        }
        lemma_defs_computations_len(init);
        let last = ss.last();
        assert(ss[ss.len() - 1] is Compute);
        assert(last == IRStmtV::Compute(last->Compute_0));
        assert(stmt_defs_flat(last) == seq![last->Compute_0.var_name]);
        assert(defs_flat(ss) == defs_flat(init) + stmt_defs_flat(last));
    }
}

/// The statements of an expression define fresh names.
proof fn lemma_expression_defs(g: Graph, id: NodeId, names: NameMap, c: Counters)
    requires
        room(c, defs_flat(expr_ir(g, id, names, c, Seq::empty()).emitted).len()),
    ensures
        ({
            let e = expr_ir(g, id, names, c, Seq::empty());
            &&& fresh_seq(defs_flat(e.emitted), c, e.counters)
            &&& advanced(c, e.counters, defs_flat(e.emitted).len())
        }),
{
    let e = expr_ir(g, id, names, c, Seq::empty());
    let full = Set::<Seq<char>>::full();
    assert(names_within(names, full, Seq::empty()));
    assert(read_variables(g).subset_of(full));
    law_expression_reads_defined(g, id, names, c, Seq::empty(), full);
    lemma_defs_computations_len(e.emitted);
    law_expression_names_distinct(g, id, names, c, Seq::empty());
    lemma_fresh_computations(e.emitted, c, e.counters);
}

/// The statements feeding a statement input define fresh names.
proof fn lemma_input_defs(g: Graph, id: NodeId, index: usize, names: NameMap, c: Counters, default: Seq<char>)
    requires
        room(c, defs_flat(input_ir(g, id, index, names, c, default).emitted).len()),
    ensures
        ({
            let v = input_ir(g, id, index, names, c, default);
            &&& fresh_seq(defs_flat(v.emitted), c, v.counters)
            &&& advanced(c, v.counters, defs_flat(v.emitted).len())
        }),
{
    match first_source(g.connections@, data_input(id, index)) {
        None => {
            lemma_fresh_seq_empty(c);
        },
        Some(src) => {
            lemma_expression_defs(g, src.node_id, names, c);
        },
    }
}

/// The statements of a Print node define fresh names.
proof fn lemma_print_defs(g: Graph, id: NodeId, names: NameMap, c: Counters)
    requires
        room(c, defs_flat(print_ir(g, id, names, c).stmts).len()),
    ensures
        ({
            let p = print_ir(g, id, names, c);
            &&& fresh_seq(defs_flat(p.stmts), c, p.counters)
            &&& advanced(c, p.counters, defs_flat(p.stmts).len())
        }),
{
    match first_source(g.connections@, data_input(id, 0)) {
        None => {
            lemma_fresh_seq_empty(c);
            lemma_defs_push(Seq::empty(), IRStmtV::Comment(print_unwired(id)));
            assert(defs_flat(seq![IRStmtV::Comment(print_unwired(id))]) =~= Seq::<Seq<char>>::empty());
        },
        Some(src) => {
            let e = expr_ir(g, src.node_id, names, c, Seq::empty());
            let last = match e.value {
                Some((v, _)) => IRStmtV::Print { value_var: v },
                None => IRStmtV::Comment(print_failed(id)),
            };
            lemma_defs_push(e.emitted, last);
            assert(defs_flat(e.emitted.push(last)) =~= defs_flat(e.emitted));
            lemma_expression_defs(g, src.node_id, names, c);
        },
    }
}

/// The statements of a plugin node's arguments define fresh names.
proof fn lemma_args_defs(g: Graph, id: NodeId, n: nat, names: NameMap, c: Counters)
    requires
        room(c, defs_flat(plugin_args_ir(g, id, n, names, c).emitted).len()),
    ensures
        ({
            let a = plugin_args_ir(g, id, n, names, c);
            &&& fresh_seq(defs_flat(a.emitted), c, a.counters)
            &&& advanced(c, a.counters, defs_flat(a.emitted).len())
        }),
    decreases n,
{
    if n == 0 {
        lemma_fresh_seq_empty(c);
    } else {
        let r = plugin_args_ir(g, id, (n - 1) as nat, names, c);
        let x = input_ir(g, id, (n - 1) as usize, r.names, r.counters, "0.0"@);
        lemma_defs_concat(r.emitted, x.emitted);
        let dr = defs_flat(r.emitted).len();
        let dx = defs_flat(x.emitted).len();
        lemma_room_less(c, dr, dr + dx);
        lemma_args_defs(g, id, (n - 1) as nat, names, c);
        lemma_room_after(c, r.counters, dr, dx);
        lemma_input_defs(g, id, (n - 1) as usize, r.names, r.counters, "0.0"@);
        lemma_fresh_seq_concat(defs_flat(r.emitted), defs_flat(x.emitted), c, r.counters, x.counters);
    }
}

/// The statements of a statement node other than a loop define fresh
/// names.
proof fn lemma_step_defs(g: Graph, id: NodeId, names: NameMap, c: Counters)
    requires
        room(c, defs_flat(step_ir(g, id, names, c).stmts).len()),
    ensures
        ({
            let s = step_ir(g, id, names, c);
            &&& fresh_seq(defs_flat(s.stmts), c, s.counters)
            &&& advanced(c, s.counters, defs_flat(s.stmts).len())
        }),
{
    let st = step_ir(g, id, names, c);
    match g.kinds()[id] {
        NodeKind::SetVariable(name) => {
            let v = input_ir(g, id, 0, names, c, "0.0"@);
            lemma_defs_push(v.emitted, IRStmtV::SetVar { name: name@, value_var: v.var });
            assert(defs_flat(st.stmts) =~= defs_flat(v.emitted));
            lemma_input_defs(g, id, 0, names, c, "0.0"@);
        },
        NodeKind::Print => {
            lemma_print_defs(g, id, names, c);
        },
        NodeKind::FunctionCall { name } => {
            let a = input_ir(g, id, 0, names, c, "0.0"@);
            let b = input_ir(g, id, 1, a.names, a.counters, "0.0"@);
            let cb = b.counters;
            let call = IRStmtV::CallFunction {
                var_name: counter_name("call"@, cb.4),
                func_name: name@,
                args: seq![a.var, b.var],
            };
            lemma_defs_concat(a.emitted, b.emitted);
            lemma_defs_push(a.emitted + b.emitted, call);
            let da = defs_flat(a.emitted).len();
            let db = defs_flat(b.emitted).len();
            assert(defs_flat(st.stmts) == defs_flat(a.emitted) + defs_flat(b.emitted) + seq![
                counter_name("call"@, cb.4),
            ]);
            lemma_room_less(c, da, da + db + 1);
            lemma_input_defs(g, id, 0, names, c, "0.0"@);
            lemma_room_after(c, a.counters, da, db + 1);
            lemma_room_less(a.counters, db, db + 1);
            lemma_input_defs(g, id, 1, a.names, a.counters, "0.0"@);
            lemma_fresh_seq_concat(defs_flat(a.emitted), defs_flat(b.emitted), c, a.counters, cb);
            lemma_room_after(c, cb, da + db, 1);
            reveal_strlit("call");
            reveal_strlit("num");
            reveal_strlit("add");
            reveal_strlit("sub");
            reveal_strlit("cmp");
            reveal_strlit("mul");
            reveal_strlit("branch");
            reveal_strlit("div");
            assert("call"@.len() != "num"@.len());
            assert("call"@.len() != "add"@.len());
            assert("call"@.len() != "sub"@.len());
            assert("call"@.len() != "cmp"@.len());
            assert("call"@.len() != "mul"@.len());
            assert("call"@.len() != "branch"@.len());
            assert("call"@.len() != "div"@.len());
            assert(slot_of("call"@) == 4);
            assert(ctr(cb, 4) + 1 <= usize::MAX);
            assert forall|t: int| 0 <= t < 6 && t != 4 implies #[trigger] ctr(st.counters, t) == ctr(cb, t) by {
                if t == 0 {
                } else if t == 1 {
                } else if t == 2 {
                } else if t == 3 {
                } else {
                }
            }
            lemma_one_name("call"@, cb, st.counters);
            lemma_fresh_seq_concat(
                defs_flat(a.emitted) + defs_flat(b.emitted),
                seq![counter_name("call"@, cb.4)],
                c,
                cb,
                st.counters,
            );
        },
        NodeKind::Return => {
            let v = input_ir(g, id, 0, names, c, "0.0"@);
            lemma_defs_push(v.emitted, IRStmtV::Return(v.var));
            assert(defs_flat(st.stmts) =~= defs_flat(v.emitted));
            lemma_input_defs(g, id, 0, names, c, "0.0"@);
        },
        NodeKind::Plugin(inst) => {
            if let Some(def) = spec_plugin_def(inst.plugin_id) {
                let a = plugin_args_ir(g, id, def.data_inputs.len(), names, c);
                let call = IRStmtV::PluginCall {
                    plugin_id: inst.plugin_id,
                    node_type: inst.node_type,
                    config: strs(inst.config.values@),
                    arg_vars: a.vars,
                    out_vars: plugin_out_vars(inst.node_type, id, def.data_outputs.len()),
                };
                lemma_defs_push(a.emitted, call);
                assert(defs_flat(st.stmts) =~= defs_flat(a.emitted));
                lemma_args_defs(g, id, def.data_inputs.len(), names, c);
            } else {
                lemma_fresh_seq_empty(c);
            }
        },
        _ => {
            lemma_fresh_seq_empty(c);
        },
    }
}

/// The statements of a chain define fresh names.
proof fn lemma_chain_defs(
    g: Graph,
    current: Option<NodeId>,
    names: NameMap,
    c: Counters,
    steps: nat,
    stack: Seq<NodeId>,
)
    requires
        room(c, defs_flat(chain_ir(g, current, names, c, steps, stack).stmts).len()),
    ensures
        ({
            let out = chain_ir(g, current, names, c, steps, stack);
            &&& fresh_seq(defs_flat(out.stmts), c, out.counters)
            &&& advanced(c, out.counters, defs_flat(out.stmts).len())
        }),
    decreases g.nodes@.len() - stack.len(), MAX_CHAIN_STEPS - steps,
{
    let out = chain_ir(g, current, names, c, steps, stack);
    lemma_fresh_seq_empty(c);
    match current {
        None => {},
        Some(id) => {
            if steps >= MAX_CHAIN_STEPS {
                lemma_defs_push(Seq::empty(), IRStmtV::Comment(chain_stopped()));
                assert(seq![IRStmtV::Comment(chain_stopped())] =~= Seq::<IRStmtV>::empty().push(
                    IRStmtV::Comment(chain_stopped()),
                ));
                assert(defs_flat(out.stmts) =~= Seq::<Seq<char>>::empty());
            } else if !g.kinds().contains_key(id) {
            } else if g.kinds()[id] is WhileLoop {
                if !(stack.contains(id) || stack.len() >= g.nodes@.len()) {
                    let cond = input_ir(g, id, 0, Map::empty(), c, "false"@);
                    let bstart = first_target(g.connections@, exec_output(id, 0));
                    let body = chain_ir(g, bstart, Map::empty(), cond.counters, 0, stack.push(id));
                    let rstart = first_target(g.connections@, exec_output(id, 1));
                    let rest = chain_ir(g, rstart, names, body.counters, steps + 1, stack);
                    let w = IRStmtV::While { cond_lines: cond.emitted, cond_var: cond.var, body: body.stmts };
                    lemma_defs_push(Seq::empty(), w);
                    assert(seq![w] =~= Seq::<IRStmtV>::empty().push(w));
                    assert(defs_flat(seq![w]) =~= defs_flat(cond.emitted) + defs_flat(body.stmts));
                    lemma_defs_concat(seq![w], rest.stmts);
                    let dc = defs_flat(cond.emitted).len();
                    let db = defs_flat(body.stmts).len();
                    let dr = defs_flat(rest.stmts).len();
                    assert(defs_flat(out.stmts).len() == dc + db + dr);
                    lemma_room_less(c, dc, dc + db + dr);
                    lemma_input_defs(g, id, 0, Map::empty(), c, "false"@);
                    lemma_room_after(c, cond.counters, dc, db + dr);
                    lemma_room_less(cond.counters, db, db + dr);
                    lemma_chain_defs(g, bstart, Map::empty(), cond.counters, 0, stack.push(id));
                    lemma_fresh_seq_concat(defs_flat(cond.emitted), defs_flat(body.stmts), c, cond.counters, body.counters);
                    lemma_room_after(c, body.counters, dc + db, dr);
                    lemma_chain_defs(g, rstart, names, body.counters, steps + 1, stack);
                    lemma_fresh_seq_concat(
                        defs_flat(cond.emitted) + defs_flat(body.stmts),
                        defs_flat(rest.stmts),
                        c,
                        body.counters,
                        rest.counters,
                    );
                }
            } else {
                let st = step_ir(g, id, names, c);
                let rest = chain_ir(g, next_of(g, id), st.names, st.counters, steps + 1, stack);
                lemma_defs_concat(st.stmts, rest.stmts);
                let ds = defs_flat(st.stmts).len();
                let dr = defs_flat(rest.stmts).len();
                lemma_room_less(c, ds, ds + dr);
                lemma_step_defs(g, id, names, c);
                lemma_room_after(c, st.counters, ds, dr);
                lemma_chain_defs(g, next_of(g, id), st.names, st.counters, steps + 1, stack);
                lemma_fresh_seq_concat(defs_flat(st.stmts), defs_flat(rest.stmts), c, st.counters, rest.counters);
            }
        },
    }
}

/// The statements of Print nodes built one after another define fresh
/// names.
proof fn lemma_prints_defs(g: Graph, ids: Seq<NodeId>, names: NameMap, c: Counters)
    requires
        room(c, defs_flat(prints_ir(g, ids, names, c).stmts).len()),
    ensures
        ({
            let p = prints_ir(g, ids, names, c);
            &&& fresh_seq(defs_flat(p.stmts), c, p.counters)
            &&& advanced(c, p.counters, defs_flat(p.stmts).len())
        }),
    decreases ids.len(),
{
    if ids.len() == 0 {
        lemma_fresh_seq_empty(c);
    } else {
        let r = prints_ir(g, ids.drop_last(), names, c);
        let q = print_ir(g, ids.last(), r.names, r.counters);
        lemma_defs_concat(r.stmts, q.stmts);
        let dr = defs_flat(r.stmts).len();
        let dq = defs_flat(q.stmts).len();
        lemma_room_less(c, dr, dr + dq);
        lemma_prints_defs(g, ids.drop_last(), names, c);
        lemma_room_after(c, r.counters, dr, dq);
        lemma_print_defs(g, ids.last(), r.names, r.counters);
        lemma_fresh_seq_concat(defs_flat(r.stmts), defs_flat(q.stmts), c, r.counters, q.counters);
    }
}

/// The variables that function bodies define, body after body.
pub open spec fn functions_defs(fs: Seq<IRFunctionV>) -> Seq<Seq<char>>
    decreases fs.len(),
{
    if fs.len() == 0 {
        Seq::empty()
    } else {
        functions_defs(fs.drop_last()) + defs_flat(fs.last().body)
    }
}

/// The function bodies compiled so far define fresh names.
proof fn lemma_functions_defs(g: Graph, n: nat, c: Counters)
    requires
        n <= g.nodes@.len(),
        room(c, functions_defs(functions_ir(g, n, c).functions).len()),
    ensures
        ({
            let f = functions_ir(g, n, c);
            &&& fresh_seq(functions_defs(f.functions), c, f.counters)
            &&& advanced(c, f.counters, functions_defs(f.functions).len())
        }),
    decreases n,
{
    if n == 0 {
        lemma_fresh_seq_empty(c);
    } else {
        let r = functions_ir(g, (n - 1) as nat, c);
        let node = g.nodes@[n - 1];
        let f = functions_ir(g, n, c);
        if let NodeKind::FunctionDef { name, params } = node.kind {
            let body = chain_ir(g, body_start(g, node.id), Map::empty(), r.counters, 0, Seq::empty());
            assert(f.functions.drop_last() =~= r.functions);
            assert(f.functions.last().body == body.stmts);
            let dr = functions_defs(r.functions).len();
            let db = defs_flat(body.stmts).len();
            lemma_room_less(c, dr, dr + db);
            lemma_functions_defs(g, (n - 1) as nat, c);
            lemma_room_after(c, r.counters, dr, db);
            lemma_chain_defs(g, body_start(g, node.id), Map::empty(), r.counters, 0, Seq::empty());
            lemma_fresh_seq_concat(functions_defs(r.functions), defs_flat(body.stmts), c, r.counters, body.counters);
        } else {
            lemma_functions_defs(g, (n - 1) as nat, c);
        }
    }
}

/// The variables that a compiled program defines, in order: those of
/// every function body, then those of the main statements.
pub open spec fn program_defs(ir: (Seq<IRFunctionV>, Seq<IRStmtV>)) -> Seq<Seq<char>> {
    functions_defs(ir.0) + defs_flat(ir.1)
}

/// A compiled program never gives two computations or calls the same
/// variable, anywhere in it: every variable it defines is a compiler name
/// (a prefix and a counter value), the counters only move forward across
/// the whole compilation, and no name repeats. This holds whenever no
/// counter passes the top of `usize` on the way.
pub proof fn law_program_names_distinct(g: Graph)
    requires
        room((0, 0, 0, 0, 0, 0), program_defs(full_ir(g)).len()),
    ensures
        ({
            let ns = program_defs(full_ir(g));
            &&& forall|a: int, b: int| 0 <= a < b < ns.len() ==> #[trigger] ns[a] != #[trigger] ns[b]
            &&& forall|m: int|
                0 <= m < ns.len() ==> exists|p: Seq<char>, v: usize| slot_of(p) >= 0 && #[trigger] ns[m] == counter_name(p, v)
        }),
{
    let z: Counters = (0, 0, 0, 0, 0, 0);
    let f = functions_ir(g, g.nodes@.len(), z);
    let main = full_ir(g).1;
    let df = functions_defs(f.functions).len();
    let dm = defs_flat(main).len();
    lemma_room_less(z, df, df + dm);
    lemma_functions_defs(g, g.nodes@.len(), z);
    lemma_room_after(z, f.counters, df, dm);
    let c_end = match first_start(g.nodes@) {
        Some(s) => {
            lemma_chain_defs(g, body_start(g, s), Map::empty(), f.counters, 0, Seq::empty());
            chain_ir(g, body_start(g, s), Map::empty(), f.counters, 0, Seq::empty()).counters
        },
        None => {
            lemma_prints_defs(g, print_ids(g.nodes@), Map::empty(), f.counters);
            prints_ir(g, print_ids(g.nodes@), Map::empty(), f.counters).counters
        },
    };
    lemma_fresh_seq_concat(functions_defs(f.functions), defs_flat(main), z, f.counters, c_end);
    let ns = program_defs(full_ir(g));
    assert forall|m: int| 0 <= m < ns.len() implies exists|p: Seq<char>, v: usize| slot_of(p) >= 0 && #[trigger] ns[m]
        == counter_name(p, v) by {
        assert(named_between(ns[m], z, c_end));
    }
}

} // verus!
