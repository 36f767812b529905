//! Compiling a graph to the IR: expressions, statement chains and whole
//! programs, each proved to yield what `compile` states.
use std::collections::HashMap;
use vstd::prelude::*;

use crate::compile::{
    arity, bump, counter_name, expr_ir, input_ir, is_operation, operand_sources, operands_ir,
    operation_result, plugin_args_ir, plugin_out_vars, print_failed, print_unwired, step_ir,
    chain_ir, chain_ok, chain_stopped, next_of, path_ok, lemma_path_shorter, lemma_path_push,
    Counters, NameMap, MAX_CHAIN_STEPS, body_start, functions_ir, full_ir, graph_ok, main_ir,
    prints_ir, generated_code, expr_vis, operands_vis, lemma_functions_nesting, lemma_main_nesting,
};
use crate::emit_python::emit_python;
use crate::emit_braced::{emit_cpp, emit_javascript, emit_rust};
use crate::types::TargetLanguage;
use crate::ir::{functions_view, IRFunction};
use crate::text::split_params;
use crate::node::clone_strings;
use crate::plugin::{plugin_def_for, PluginConfig};
use crate::graph::Graph;
use crate::ir::{stmt_view, stmts_view, IROp, IRStatement, IRStmt, IRStmtV, IRType};
use crate::node::NodeKind;
use crate::text::{owned, push_str, strs, u64_to_decimal, usize_to_decimal};
use crate::types::NodeId;

verus! {

broadcast use vstd::std_specs::hash::group_hash_axioms;

/// Variable names already given to node outputs while building one chain.
pub type NameTable = HashMap<NodeId, (String, IRType)>;

/// A name table with its names taken as character sequences.
pub open spec fn names_view(m: Map<NodeId, (String, IRType)>) -> NameMap {
    m.map_values(|p: (String, IRType)| (p.0@, p.1))
}

/// A built value with its name taken as a character sequence.
pub open spec fn value_view(r: Option<(String, IRType)>) -> Option<(Seq<char>, IRType)> {
    match r {
        Some((s, t)) => Some((s@, t)),
        None => None,
    }
}

/// Whether `v` holds `id`.
fn contains_id(v: &Vec<NodeId>, id: NodeId) -> (b: bool)
    ensures
        b == v@.contains(id),
{
    let mut i: usize = 0;
    while i < v.len()
        invariant
            i <= v@.len(),
            forall|j: int| 0 <= j < i ==> v@[j] != id,
        decreases v@.len() - i,
    {
        if v[i] == id {
            return true;
        }
        i = i + 1;
    }
    false
}

/// The variable already given to the output of `id`.
fn lookup_name(names: &NameTable, id: NodeId) -> (r: Option<(String, IRType)>)
    ensures
        value_view(r) == (if names_view(names@).contains_key(id) {
            Some(names_view(names@)[id])
        } else {
            None
        }),
{
    match names.get(&id) {
        Some(p) => Some((p.0.clone(), p.1)),
        None => None,
    }
}

/// Gives the output of `id` the variable `name`.
fn record_name(names: &mut NameTable, id: NodeId, name: &String, ty: IRType)
    ensures
        names_view(final(names)@) == names_view(old(names)@).insert(id, (name@, ty)),
{
    names.insert(id, (name.clone(), ty));
    proof {
        assert(names_view(names@) =~= names_view(old(names)@).insert(id, (name@, ty)));
    }
}

/// Appends one statement.
fn push_stmt(out: &mut Vec<IRStmt>, s: IRStmt)
    ensures
        stmts_view(final(out)@) == stmts_view(old(out)@).push(stmt_view(s)),
{
    let ghost v = stmt_view(s);
    out.push(s);
    proof {
        assert(out@.drop_last() =~= old(out)@);
    }
}

/// A counter after one more use.
fn bump_count(c: usize) -> (r: usize)
    ensures
        r == bump(c),
{
    if c == usize::MAX {
        0
    } else {
        c + 1
    }
}

/// `prefix_c`.
fn counter_var(prefix: &str, c: usize) -> (r: String)
    ensures
        r@ == counter_name(prefix@, c),
{
    let mut s = owned(prefix);
    push_str(&mut s, "_");
    let digits = usize_to_decimal(c);
    push_str(&mut s, digits.as_str());
    s
}

impl Graph {
    /// The nodes feeding data inputs `0..k` of `id`, if each is wired.
    fn operand_sources(&self, id: NodeId, k: usize) -> (r: Option<Vec<NodeId>>)
        ensures
            match r {
                Some(v) => operand_sources(*self, id, k as nat) == Some(v@),
                None => operand_sources(*self, id, k as nat) is None,
            },
    {
        let mut v: Vec<NodeId> = Vec::new();
        let mut i: usize = 0;
        while i < k
            invariant
                i <= k,
                operand_sources(*self, id, i as nat) == Some(v@),
            decreases k - i,
        {
            match self.find_source_for_input(id, i) {
                Some(p) => v.push(p.node_id),
                None => {
                    proof {
                        lemma_sources_stay_none(*self, id, (i + 1) as nat, k as nat);
                    }
                    return None;
                },
            }
            i = i + 1;
        }
        Some(v)
    }

    /// Names the result of an operation whose operands are built, and emits
    /// its statement.
    fn finish_operation(
        kind: &NodeKind,
        node_id: NodeId,
        vs: &Vec<String>,
        names: &mut NameTable,
        out: &mut Vec<IRStmt>,
        counters: &mut Counters,
    ) -> (r: Option<(String, IRType)>)
        requires
            is_operation(*kind),
            vs@.len() == arity(*kind),
        ensures
            ({
                let (name, ty, op, c) = operation_result(*kind, strs(vs@), *old(counters));
                &&& value_view(r) == Some((name, ty))
                &&& names_view(final(names)@) == names_view(old(names)@).insert(node_id, (name, ty))
                &&& *final(counters) == c
                &&& stmts_view(final(out)@) == stmts_view(old(out)@).push(
                    IRStmtV::Compute(crate::ir::IRStatementV { var_name: name, ir_type: ty, op }),
                )
            }),
    {
        let c = *counters;
        let (name, ty, op) = match kind {
            NodeKind::Add => {
                counters.1 = bump_count(c.1);
                (counter_var("add", c.1), IRType::Number, IROp::Add(vs[0].clone(), vs[1].clone()))
            },
            NodeKind::Sub => {
                counters.2 = bump_count(c.2);
                (counter_var("sub", c.2), IRType::Number, IROp::Sub(vs[0].clone(), vs[1].clone()))
            },
            NodeKind::Mul => {
                counters.3 = bump_count(c.3);
                (counter_var("mul", c.3), IRType::Number, IROp::Mul(vs[0].clone(), vs[1].clone()))
            },
            NodeKind::Div => {
                counters.4 = bump_count(c.4);
                (counter_var("div", c.4), IRType::Number, IROp::Div(vs[0].clone(), vs[1].clone()))
            },
            NodeKind::Compare(o) => {
                counters.2 = bump_count(c.2);
                (
                    counter_var("cmp", c.2),
                    IRType::Bool,
                    IROp::Compare(*o, vs[0].clone(), vs[1].clone()),
                )
            },
            NodeKind::And => {
                counters.5 = bump_count(c.5);
                (counter_var("and", c.5), IRType::Bool, IROp::And(vs[0].clone(), vs[1].clone()))
            },
            NodeKind::Or => {
                counters.5 = bump_count(c.5);
                (counter_var("or", c.5), IRType::Bool, IROp::Or(vs[0].clone(), vs[1].clone()))
            },
            NodeKind::Not => {
                counters.5 = bump_count(c.5);
                (counter_var("not", c.5), IRType::Bool, IROp::Not(vs[0].clone()))
            },
            _ => {
                counters.3 = bump_count(c.3);
                (
                    counter_var("branch", c.3),
                    IRType::Number,
                    IROp::Branch {
                        cond: vs[0].clone(),
                        then_val: vs[1].clone(),
                        else_val: vs[2].clone(),
                    },
                )
            },
        };
        push_stmt(out, IRStmt::Compute(IRStatement { var_name: name.clone(), ir_type: ty, op }));
        record_name(names, node_id, &name, ty);
        Some((name, ty))
    }
}

impl Graph {
    /// Builds the expression whose value node `node_id` outputs, appending
    /// its statements to `out`. `visiting` holds the nodes on the current
    /// path; it comes back unchanged when the expression is built, and as
    /// `expr_vis` gives it when building fails.
    pub fn build_expr_ir(
        &self,
        node_id: NodeId,
        names: &mut NameTable,
        out: &mut Vec<IRStmt>,
        counters: &mut Counters,
        visiting: &mut Vec<NodeId>,
    ) -> (r: Option<(String, IRType)>)
        requires
            self.wf(),
            path_ok(*self, old(visiting)@),
        ensures
            ({
                let e = expr_ir(*self, node_id, names_view(old(names)@), *old(counters), old(visiting)@);
                &&& value_view(r) == e.value
                &&& names_view(final(names)@) == e.names
                &&& *final(counters) == e.counters
                &&& stmts_view(final(out)@) == stmts_view(old(out)@) + e.emitted
            }),
            final(visiting)@ == expr_vis(*self, node_id, names_view(old(names)@), *old(counters), old(visiting)@),
            r is Some ==> final(visiting)@ == old(visiting)@,
        decreases self.nodes@.len() - old(visiting)@.len(), 0nat, 0nat,
    {
        let ghost out0 = stmts_view(out@);
        proof {
            assert(out0 + Seq::<IRStmtV>::empty() =~= out0);
        }
        if contains_id(visiting, node_id) {
            return None;
        }
        match lookup_name(names, node_id) {
            Some(existing) => {
                return Some(existing);
            },
            None => {},
        }
        let kind = match self.get(node_id) {
            Some(k) => k,
            None => {
                visiting.push(node_id);
                return None;
            },
        };
        proof {
            lemma_path_shorter(*self, visiting@, node_id);
        }
        match kind {
            NodeKind::Number(v) => {
                let name = counter_var("num", counters.0);
                counters.0 = bump_count(counters.0);
                push_stmt(
                    out,
                    IRStmt::Compute(
                        IRStatement {
                            var_name: name.clone(),
                            ir_type: IRType::Number,
                            op: IROp::Literal(v.clone()),
                        },
                    ),
                );
                record_name(names, node_id, &name, IRType::Number);
                Some((name, IRType::Number))
            },
            NodeKind::GetVariable(v) => {
                record_name(names, node_id, v, IRType::Number);
                Some((v.clone(), IRType::Number))
            },
            NodeKind::Add | NodeKind::Sub | NodeKind::Mul | NodeKind::Div | NodeKind::Compare(_)
            | NodeKind::And | NodeKind::Or | NodeKind::Not | NodeKind::Branch => {
                let k: usize = match kind {
                    NodeKind::Not => 1,
                    NodeKind::Branch => 3,
                    _ => 2,
                };
                let srcs = match self.operand_sources(node_id, k) {
                    Some(s) => s,
                    None => {
                        visiting.push(node_id);
                        return None;
                    },
                };
                visiting.push(node_id);
                proof {
                    assert(path_ok(*self, visiting@)) by {
                        assert forall|i: int, j: int|
                            0 <= i < visiting@.len() && 0 <= j < visiting@.len() && i != j implies visiting@[i]
                            != visiting@[j] by {
                            if i < old(visiting)@.len() && j < old(visiting)@.len() {
                                assert(old(visiting)@[i] != old(visiting)@[j]);
                            } else if i == old(visiting)@.len() {
                                assert(old(visiting)@.contains(visiting@[j]) || j == i);
                            } else {
                                assert(old(visiting)@.contains(visiting@[i]) || j == i);
                            }
                        }
                    }
                }
                let ops = self.build_operands(&srcs, names, out, counters, visiting);
                match ops {
                    None => None,
                    Some(vs) => {
                        visiting.pop();
                        proof {
                            assert(visiting@ =~= old(visiting)@);
                        }
                        proof {
                            lemma_operands_len(*self, srcs@, names_view(old(names)@), *old(counters), old(visiting)@.push(node_id));
                            lemma_sources_len(*self, node_id, k as nat);
                            assert(strs(vs@).len() == vs@.len());
                        }
                        let ghost before = stmts_view(out@);
                        let r = Self::finish_operation(kind, node_id, &vs, names, out, counters);
                        proof {
                            assert(stmts_view(out@) =~= before.push(stmts_view(out@).last()));
                        }
                        r
                    },
                }
            },
            _ => None,
        }
    }

    /// Builds the operand expressions in order, stopping at the first one
    /// that cannot be built.
    fn build_operands(
        &self,
        srcs: &Vec<NodeId>,
        names: &mut NameTable,
        out: &mut Vec<IRStmt>,
        counters: &mut Counters,
        visiting: &mut Vec<NodeId>,
    ) -> (r: Option<Vec<String>>)
        requires
            self.wf(),
            path_ok(*self, old(visiting)@),
        ensures
            ({
                let o = operands_ir(*self, srcs@, names_view(old(names)@), *old(counters), old(visiting)@);
                &&& match r {
                    Some(vs) => o.vars == Some(strs(vs@)),
                    None => o.vars is None,
                }
                &&& names_view(final(names)@) == o.names
                &&& *final(counters) == o.counters
                &&& stmts_view(final(out)@) == stmts_view(old(out)@) + o.emitted
            }),
            final(visiting)@ == operands_vis(*self, srcs@, names_view(old(names)@), *old(counters), old(visiting)@),
            r is Some ==> final(visiting)@ == old(visiting)@,
        decreases self.nodes@.len() - old(visiting)@.len(), 1nat, srcs@.len(),
    {
        let ghost names0 = names_view(names@);
        let ghost c0 = *counters;
        let ghost vis0 = visiting@;
        let ghost out0 = stmts_view(out@);
        let mut vs: Vec<String> = Vec::new();
        let mut i: usize = 0;
        proof {
            assert(srcs@.take(0) =~= Seq::<NodeId>::empty());
            assert(strs(vs@) =~= Seq::<Seq<char>>::empty());
            assert(out0 + Seq::<IRStmtV>::empty() =~= out0);
        }
        while i < srcs.len()
            invariant
                self.wf(),
                path_ok(*self, vis0),
                vis0 == old(visiting)@,
                names0 == names_view(old(names)@),
                c0 == *old(counters),
                out0 == stmts_view(old(out)@),
                i <= srcs@.len(),
                visiting@ == vis0,
                ({
                    let o = operands_ir(*self, srcs@.take(i as int), names0, c0, vis0);
                    &&& o.vars == Some(strs(vs@))
                    &&& names_view(names@) == o.names
                    &&& *counters == o.counters
                    &&& stmts_view(out@) == out0 + o.emitted
                }),
            decreases srcs@.len() - i,
        {
            let ghost prev = operands_ir(*self, srcs@.take(i as int), names0, c0, vis0);
            let ghost mid = stmts_view(out@);
            let e = self.build_expr_ir(srcs[i], names, out, counters, visiting);
            proof {
                assert(srcs@.take(i + 1).drop_last() =~= srcs@.take(i as int));
                assert(srcs@.take(i + 1).last() == srcs@[i as int]);
                let ex = expr_ir(*self, srcs@[i as int], prev.names, prev.counters, vis0);
                assert(out0 + (prev.emitted + ex.emitted) =~= out0 + prev.emitted + ex.emitted);
            }
            match e {
                None => {
                    proof {
                        lemma_operands_stay_none(*self, srcs@, (i + 1) as int, names0, c0, vis0);
                        lemma_operands_vis_stay(*self, srcs@, (i + 1) as int, names0, c0, vis0);
                    }
                    return None;
                },
                Some((n, _)) => {
                    let ghost vs0 = vs@;
                    vs.push(n);
                    proof {
                        assert(strs(vs@) =~= strs(vs0).push(n@));
                    }
                },
            }
            i = i + 1;
        }
        proof {
            assert(srcs@.take(srcs@.len() as int) =~= srcs@);
        }
        Some(vs)
    }
}

impl Graph {
    /// The variable of the value feeding data input `index` of `id`, or
    /// `default` when nothing is wired there or it cannot be built.
    fn build_input(
        &self,
        id: NodeId,
        index: usize,
        names: &mut NameTable,
        out: &mut Vec<IRStmt>,
        counters: &mut Counters,
        default: &str,
    ) -> (r: String)
        requires
            self.wf(),
        ensures
            ({
                let v = input_ir(*self, id, index, names_view(old(names)@), *old(counters), default@);
                &&& r@ == v.var
                &&& names_view(final(names)@) == v.names
                &&& *final(counters) == v.counters
                &&& stmts_view(final(out)@) == stmts_view(old(out)@) + v.emitted
            }),
    {
        proof {
            assert(stmts_view(out@) + Seq::<IRStmtV>::empty() =~= stmts_view(out@));
        }
        match self.find_source_for_input(id, index) {
            Some(src) => {
                let mut visiting: Vec<NodeId> = Vec::new();
                proof {
                    assert(visiting@.no_duplicates());
                }
                match self.build_expr_ir(src.node_id, names, out, counters, &mut visiting) {
                    Some((n, _)) => n,
                    None => owned(default),
                }
            },
            None => owned(default),
        }
    }

    /// The variables of data inputs `0..n` of a plugin node, built in order.
    fn build_plugin_args(
        &self,
        id: NodeId,
        n: usize,
        names: &mut NameTable,
        out: &mut Vec<IRStmt>,
        counters: &mut Counters,
    ) -> (r: Vec<String>)
        requires
            self.wf(),
        ensures
            ({
                let a = plugin_args_ir(*self, id, n as nat, names_view(old(names)@), *old(counters));
                &&& strs(r@) == a.vars
                &&& names_view(final(names)@) == a.names
                &&& *final(counters) == a.counters
                &&& stmts_view(final(out)@) == stmts_view(old(out)@) + a.emitted
            }),
    {
        let ghost names0 = names_view(names@);
        let ghost c0 = *counters;
        let ghost out0 = stmts_view(out@);
        let mut vars: Vec<String> = Vec::new();
        let mut i: usize = 0;
        proof {
            assert(strs(vars@) =~= Seq::<Seq<char>>::empty());
            assert(out0 + Seq::<IRStmtV>::empty() =~= out0);
        }
        while i < n
            invariant
                self.wf(),
                i <= n,
                names0 == names_view(old(names)@),
                c0 == *old(counters),
                out0 == stmts_view(old(out)@),
                ({
                    let a = plugin_args_ir(*self, id, i as nat, names0, c0);
                    &&& strs(vars@) == a.vars
                    &&& names_view(names@) == a.names
                    &&& *counters == a.counters
                    &&& stmts_view(out@) == out0 + a.emitted
                }),
            decreases n - i,
        {
            let ghost prev = plugin_args_ir(*self, id, i as nat, names0, c0);
            let v = self.build_input(id, i, names, out, counters, "0.0");
            let ghost vars0 = vars@;
            vars.push(v);
            proof {
                let a = input_ir(*self, id, i, prev.names, prev.counters, "0.0"@);
                assert(out0 + (prev.emitted + a.emitted) =~= out0 + prev.emitted + a.emitted);
                assert(strs(vars@) =~= strs(vars0).push(a.var));
            }
            i = i + 1;
        }
        vars
    }

    /// The statements of a Print node.
    fn build_print(
        &self,
        id: NodeId,
        names: &mut NameTable,
        out: &mut Vec<IRStmt>,
        counters: &mut Counters,
    )
        requires
            self.wf(),
        ensures
            ({
                let s = crate::compile::print_ir(*self, id, names_view(old(names)@), *old(counters));
                &&& names_view(final(names)@) == s.names
                &&& *final(counters) == s.counters
                &&& stmts_view(final(out)@) == stmts_view(old(out)@) + s.stmts
            }),
    {
        match self.find_source_for_input(id, 0) {
            Some(src) => {
                let mut visiting: Vec<NodeId> = Vec::new();
                proof {
                    assert(visiting@.no_duplicates());
                }
                let ghost before = stmts_view(out@);
                match self.build_expr_ir(src.node_id, names, out, counters, &mut visiting) {
                    Some((v, _)) => {
                        push_stmt(out, IRStmt::Print { value_var: v });
                    },
                    None => {
                        let mut m = owned("Print node ");
                        let digits = u64_to_decimal(id);
                        push_str(&mut m, digits.as_str());
                        push_str(&mut m, " has a cycle or missing input");
                        proof {
                            assert(m@ =~= print_failed(id));
                        }
                        push_stmt(out, IRStmt::Comment(m));
                    },
                }
                proof {
                    let e = expr_ir(*self, src.node_id, names_view(old(names)@), *old(counters), Seq::empty());
                    assert(stmts_view(out@) =~= before + e.emitted.push(stmts_view(out@).last()));
                }
            },
            None => {
                let mut m = owned("Print node ");
                let digits = u64_to_decimal(id);
                push_str(&mut m, digits.as_str());
                push_str(&mut m, " has no input connected");
                proof {
                    assert(m@ =~= print_unwired(id));
                }
                let ghost before = stmts_view(out@);
                push_stmt(out, IRStmt::Comment(m));
                proof {
                    assert(stmts_view(out@) =~= before + seq![IRStmtV::Comment(print_unwired(id))]);
                }
            },
        }
    }
}

/// The variables that receive the outputs of a plugin node.
fn plugin_out_var_names(node_type: u64, id: NodeId, n: usize) -> (r: Vec<String>)
    ensures
        strs(r@) == plugin_out_vars(node_type, id, n as nat),
{
    let mut r: Vec<String> = Vec::new();
    let mut i: usize = 0;
    while i < n
        invariant
            i <= n,
            strs(r@) == plugin_out_vars(node_type, id, i as nat),
        decreases n - i,
    {
        let mut v = owned("plugin_");
        let t = u64_to_decimal(node_type);
        push_str(&mut v, t.as_str());
        push_str(&mut v, "_");
        let d = u64_to_decimal(id);
        push_str(&mut v, d.as_str());
        push_str(&mut v, "_");
        let k = usize_to_decimal(i);
        push_str(&mut v, k.as_str());
        let ghost r0 = r@;
        r.push(v);
        proof {
            assert(strs(r@) =~= plugin_out_vars(node_type, id, (i + 1) as nat)) by {
                assert(strs(r@) =~= strs(r0).push(v@));
            }
        }
        i = i + 1;
    }
    r
}

impl PluginConfig {
    /// A copy of the configuration.
    pub fn duplicate(&self) -> (r: PluginConfig)
        ensures
            strs(r.values@) == strs(self.values@),
    {
        PluginConfig { values: clone_strings(&self.values) }
    }
}

impl Graph {
    /// The statements of a statement node other than a loop.
    fn build_step(
        &self,
        id: NodeId,
        kind: &NodeKind,
        names: &mut NameTable,
        out: &mut Vec<IRStmt>,
        counters: &mut Counters,
    )
        requires
            self.wf(),
            self.kinds().contains_key(id),
            *kind == self.kinds()[id],
        ensures
            ({
                let s = step_ir(*self, id, names_view(old(names)@), *old(counters));
                &&& names_view(final(names)@) == s.names
                &&& *final(counters) == s.counters
                &&& stmts_view(final(out)@) == stmts_view(old(out)@) + s.stmts
            }),
    {
        let ghost out0 = stmts_view(out@);
        proof {
            assert(out0 + Seq::<IRStmtV>::empty() =~= out0);
        }
        match kind {
            NodeKind::SetVariable(name) => {
                let v = self.build_input(id, 0, names, out, counters, "0.0");
                let ghost mid = stmts_view(out@);
                push_stmt(out, IRStmt::SetVar { name: name.clone(), value_var: v });
                proof {
                    assert(stmts_view(out@) =~= out0 + (mid.skip(out0.len() as int)).push(stmts_view(out@).last()));
                }
            },
            NodeKind::Print => {
                self.build_print(id, names, out, counters);
            },
            NodeKind::FunctionCall { name } => {
                let a = self.build_input(id, 0, names, out, counters, "0.0");
                let b = self.build_input(id, 1, names, out, counters, "0.0");
                let var_name = counter_var("call", counters.4);
                counters.4 = bump_count(counters.4);
                let args = vec![a, b];
                proof {
                    assert(strs(args@) =~= seq![a@, b@]);
                }
                let ghost mid = stmts_view(out@);
                push_stmt(
                    out,
                    IRStmt::CallFunction { var_name: var_name.clone(), func_name: name.clone(), args },
                );
                record_name(names, id, &var_name, IRType::Number);
                proof {
                    assert(stmts_view(out@) =~= out0 + (mid.skip(out0.len() as int)).push(stmts_view(out@).last()));
                }
            },
            NodeKind::Return => {
                let v = self.build_input(id, 0, names, out, counters, "0.0");
                let ghost mid = stmts_view(out@);
                push_stmt(out, IRStmt::Return(v));
                proof {
                    assert(stmts_view(out@) =~= out0 + (mid.skip(out0.len() as int)).push(stmts_view(out@).last()));
                }
            },
            NodeKind::Plugin(inst) => {
                match plugin_def_for(inst) {
                    Some(def) => {
                        let args = self.build_plugin_args(id, def.data_inputs.len(), names, out, counters);
                        let outs = plugin_out_var_names(inst.node_type, id, def.data_outputs.len());
                        let ghost mid = stmts_view(out@);
                        push_stmt(
                            out,
                            IRStmt::PluginCall {
                                plugin_id: inst.plugin_id,
                                node_type: inst.node_type,
                                config: inst.config.duplicate(),
                                arg_vars: args,
                                out_vars: outs,
                            },
                        );
                        proof {
                            assert(stmts_view(out@) =~= out0 + (mid.skip(out0.len() as int)).push(stmts_view(out@).last()));
                        }
                    },
                    None => {},
                }
            },
            _ => {},
        }
    }
}

impl Graph {
    /// Where a chain goes after a statement node that is not a loop.
    fn next_after(&self, id: NodeId, kind: &NodeKind) -> (r: Option<NodeId>)
        requires
            self.kinds().contains_key(id),
            *kind == self.kinds()[id],
        ensures
            r == next_of(*self, id),
    {
        match kind {
            NodeKind::SetVariable(_) | NodeKind::Print | NodeKind::FunctionCall { .. }
            | NodeKind::Plugin(_) => self.find_exec_target(id, 0),
            _ => None,
        }
    }

    /// Follows the statement chain from `start` and returns its statements.
    /// `stack` holds the loops whose bodies are being built around it.
    fn build_stmt_chain(
        &self,
        start: Option<NodeId>,
        counters: &mut Counters,
        Ghost(stack): Ghost<Seq<NodeId>>,
    ) -> (r: Vec<IRStmt>)
        requires
            self.wf(),
            path_ok(*self, stack),
            chain_ok(*self, start, 0, stack),
        ensures
            ({
                let c = chain_ir(*self, start, Map::empty(), *old(counters), 0, stack);
                &&& stmts_view(r@) == c.stmts
                &&& *final(counters) == c.counters
            }),
        decreases self.nodes@.len() - stack.len(),
    {
        let ghost total = chain_ir(*self, start, Map::empty(), *counters, 0, stack);
        let mut out: Vec<IRStmt> = Vec::new();
        let mut names: NameTable = HashMap::new();
        let mut current = start;
        let mut safety: u32 = 0;
        proof {
            assert(names_view(names@) =~= Map::empty());
            assert(stmts_view(out@) + total.stmts =~= total.stmts);
        }
        loop
            invariant_except_break
                self.wf(),
                path_ok(*self, stack),
                safety <= MAX_CHAIN_STEPS,
                chain_ok(*self, current, safety as nat, stack),
                ({
                    let rest = chain_ir(*self, current, names_view(names@), *counters, safety as nat, stack);
                    &&& stmts_view(out@) + rest.stmts == total.stmts
                    &&& rest.counters == total.counters
                }),
            ensures
                stmts_view(out@) == total.stmts,
                *counters == total.counters,
            decreases MAX_CHAIN_STEPS - safety,
        {
            let ghost names0 = names_view(names@);
            let ghost c0 = *counters;
            let ghost out0 = stmts_view(out@);
            let ghost steps0 = safety as nat;
            let id = match current {
                Some(id) => id,
                None => {
                    proof {
                        assert(out0 + Seq::<IRStmtV>::empty() =~= out0);
                    }
                    break;
                },
            };
            safety = safety + 1;
            if safety > MAX_CHAIN_STEPS {
                push_stmt(&mut out, IRStmt::Comment(owned("execution chain too long or cyclic, stopped")));
                proof {
                    assert(stmts_view(out@) =~= out0 + seq![IRStmtV::Comment(chain_stopped())]);
                }
                break;
            }
            let kind = match self.get(id) {
                Some(k) => k,
                None => {
                    proof {
                        assert(out0 + Seq::<IRStmtV>::empty() =~= out0);
                    }
                    break;
                },
            };
            match kind {
                NodeKind::WhileLoop => {
                    let mut cond_names: NameTable = HashMap::new();
                    let mut cond_lines: Vec<IRStmt> = Vec::new();
                    proof {
                        assert(names_view(cond_names@) =~= Map::empty());
                    }
                    let cond_var = self.build_input(id, 0, &mut cond_names, &mut cond_lines, counters, "false");
                    proof {
                        assert(Seq::<IRStmtV>::empty() + stmts_view(cond_lines@) =~= stmts_view(cond_lines@));
                        lemma_path_shorter(*self, stack, id);
                        lemma_path_push(*self, stack, id);
                    }
                    let body_start = self.find_exec_target(id, 0);
                    let body = self.build_stmt_chain(body_start, counters, Ghost(stack.push(id)));
                    let ghost w = IRStmtV::While {
                        cond_lines: stmts_view(cond_lines@),
                        cond_var: cond_var@,
                        body: stmts_view(body@),
                    };
                    push_stmt(&mut out, IRStmt::While { cond_lines, cond_var, body });
                    current = self.find_exec_target(id, 1);
                    proof {
                        let rest = chain_ir(*self, current, names0, *counters, steps0 + 1, stack);
                        assert(stmts_view(out@) == out0.push(w));
                        assert(out0 + (seq![w] + rest.stmts) =~= out0.push(w) + rest.stmts);
                    }
                },
                _ => {
                    self.build_step(id, kind, &mut names, &mut out, counters);
                    current = self.next_after(id, kind);
                    proof {
                        let st = step_ir(*self, id, names0, c0);
                        let rest = chain_ir(*self, current, st.names, st.counters, steps0 + 1, stack);
                        assert(out0 + (st.stmts + rest.stmts) =~= out0 + st.stmts + rest.stmts);
                    }
                },
            }
        }
        out
    }
}

impl Graph {
    /// Whether the chain from `start` keeps its loops properly nested, with
    /// `stack` holding the loops around it (it comes back unchanged).
    fn check_chain(&self, start: Option<NodeId>, stack: &mut Vec<NodeId>) -> (b: bool)
        requires
            self.wf(),
            path_ok(*self, old(stack)@),
        ensures
            b == chain_ok(*self, start, 0, old(stack)@),
            final(stack)@ == old(stack)@,
        decreases self.nodes@.len() - old(stack)@.len(),
    {
        let ghost stack0 = stack@;
        let mut current = start;
        let mut steps: u32 = 0;
        loop
            invariant
                self.wf(),
                path_ok(*self, stack0),
                stack0 == old(stack)@,
                stack@ == stack0,
                steps <= MAX_CHAIN_STEPS,
                chain_ok(*self, start, 0, stack0) == chain_ok(*self, current, steps as nat, stack0),
            decreases MAX_CHAIN_STEPS - steps,
        {
            let id = match current {
                Some(id) => id,
                None => {
                    return true;
                },
            };
            if steps >= MAX_CHAIN_STEPS {
                return true;
            }
            let kind = match self.get(id) {
                Some(k) => k,
                None => {
                    return true;
                },
            };
            match kind {
                NodeKind::WhileLoop => {
                    if contains_id(stack, id) {
                        return false;
                    }
                    proof {
                        lemma_path_shorter(*self, stack0, id);
                        lemma_path_push(*self, stack0, id);
                    }
                    stack.push(id);
                    let ok = self.check_chain(self.find_exec_target(id, 0), stack);
                    stack.pop();
                    proof {
                        assert(stack@ =~= stack0);
                    }
                    if !ok {
                        return false;
                    }
                    current = self.find_exec_target(id, 1);
                },
                _ => {
                    current = self.next_after(id, kind);
                },
            }
            steps = steps + 1;
        }
    }

    /// Whether every chain that compiling the graph follows keeps its loops
    /// properly nested. Compiling a graph where this fails would never end.
    pub fn loops_well_nested(&self) -> (b: bool)
        requires
            self.wf(),
        ensures
            b == graph_ok(*self),
    {
        let mut stack: Vec<NodeId> = Vec::new();
        proof {
            assert(stack@ =~= Seq::<NodeId>::empty());
            assert(path_ok(*self, stack@));
        }
        let mut i: usize = 0;
        while i < self.nodes.len()
            invariant
                self.wf(),
                i <= self.nodes@.len(),
                stack@ == Seq::<NodeId>::empty(),
                forall|j: int|
                    0 <= j < i && (#[trigger] self.nodes@[j]).kind is FunctionDef ==> chain_ok(
                        *self,
                        body_start(*self, self.nodes@[j].id),
                        0,
                        Seq::empty(),
                    ),
            decreases self.nodes@.len() - i,
        {
            if let NodeKind::FunctionDef { .. } = self.nodes[i].kind {
                let start = self.find_exec_target(self.nodes[i].id, 0);
                if !self.check_chain(start, &mut stack) {
                    return false;
                }
            }
            i = i + 1;
        }
        match self.find_start_node() {
            Some(s) => {
                let start = self.find_exec_target(s, 0);
                self.check_chain(start, &mut stack)
            },
            None => true,
        }
    }

    /// Compiles the whole graph: every function definition in id order,
    /// then the main statements.
    pub fn build_full_ir(&self) -> (r: (Vec<IRFunction>, Vec<IRStmt>))
        requires
            self.wf(),
            graph_ok(*self),
        ensures
            functions_view(r.0@) == full_ir(*self).0,
            stmts_view(r.1@) == full_ir(*self).1,
    {
        let mut counters: Counters = (0, 0, 0, 0, 0, 0);
        let mut functions: Vec<IRFunction> = Vec::new();
        let mut i: usize = 0;
        proof {
            assert(functions_view(functions@) =~= Seq::empty());
            assert(path_ok(*self, Seq::empty()));
        }
        while i < self.nodes.len()
            invariant
                self.wf(),
                graph_ok(*self),
                i <= self.nodes@.len(),
                ({
                    let f = functions_ir(*self, i as nat, (0, 0, 0, 0, 0, 0));
                    &&& functions_view(functions@) == f.functions
                    &&& counters == f.counters
                }),
            decreases self.nodes@.len() - i,
        {
            let node = &self.nodes[i];
            match &node.kind {
                NodeKind::FunctionDef { name, params } => {
                    let plist = split_params(params.as_str());
                    let start = self.find_exec_target(node.id, 0);
                    proof {
                        assert(self.nodes@[i as int].kind is FunctionDef);
                    }
                    let body = self.build_stmt_chain(start, &mut counters, Ghost(Seq::empty()));
                    let ghost fs0 = functions@;
                    functions.push(IRFunction { name: name.clone(), params: plist, body });
                    proof {
                        assert(functions@.drop_last() =~= fs0);
                        assert(functions_view(functions@) =~= functions_view(fs0).push(functions@.last()@));
                    }
                },
                _ => {},
            }
            i = i + 1;
        }
        let main = match self.find_start_node() {
            Some(s) => {
                let first = self.find_exec_target(s, 0);
                self.build_stmt_chain(first, &mut counters, Ghost(Seq::empty()))
            },
            None => {
                let mut out: Vec<IRStmt> = Vec::new();
                let mut names: NameTable = HashMap::new();
                let prints = self.print_node_ids();
                let ghost c0 = counters;
                let mut k: usize = 0;
                proof {
                    assert(names_view(names@) =~= Map::empty());
                    assert(stmts_view(out@) =~= Seq::empty());
                }
                while k < prints.len()
                    invariant
                        self.wf(),
                        k <= prints@.len(),
                        ({
                            let p = prints_ir(*self, prints@.take(k as int), Map::empty(), c0);
                            &&& stmts_view(out@) == p.stmts
                            &&& names_view(names@) == p.names
                            &&& counters == p.counters
                        }),
                    decreases prints@.len() - k,
                {
                    self.build_print(prints[k], &mut names, &mut out, &mut counters);
                    proof {
                        assert(prints@.take(k + 1).drop_last() =~= prints@.take(k as int));
                    }
                    k = k + 1;
                }
                proof {
                    assert(prints@.take(prints@.len() as int) =~= prints@);
                }
                out
            },
        };
        (functions, main)
    }
}

impl Graph {
    /// The source code that the graph compiles to in `language`.
    pub fn generate_code_for(&self, language: TargetLanguage) -> (code: String)
        requires
            self.wf(),
            graph_ok(*self),
        ensures
            code@ == generated_code(*self, language),
    {
        let (functions, main_stmts) = self.build_full_ir();
        proof {
            lemma_functions_nesting(*self, self.nodes@.len(), (0, 0, 0, 0, 0, 0));
            let f = functions_ir(*self, self.nodes@.len(), (0, 0, 0, 0, 0, 0));
            lemma_main_nesting(*self, f.counters);
            assert(self.nodes@.len() == self.nodes.len());
            assert(functions_view(functions@) == f.functions);
        }
        match language {
            TargetLanguage::Python => emit_python(functions.as_slice(), main_stmts.as_slice()),
            TargetLanguage::Rust => emit_rust(functions.as_slice(), main_stmts.as_slice()),
            TargetLanguage::JavaScript => emit_javascript(functions.as_slice(), main_stmts.as_slice()),
            TargetLanguage::Cpp => emit_cpp(functions.as_slice(), main_stmts.as_slice()),
        }
    }
}

/// A complete operand list has one variable per source.
proof fn lemma_operands_len(g: Graph, srcs: Seq<NodeId>, names: NameMap, counters: Counters, vis: Seq<NodeId>)
    ensures
        operands_ir(g, srcs, names, counters, vis).vars matches Some(vs) ==> vs.len() == srcs.len(),
    decreases srcs.len(),
{
    if srcs.len() > 0 {
        lemma_operands_len(g, srcs.drop_last(), names, counters, vis);
    }
}

/// Once an operand fails, the whole operand list fails with the same state.
proof fn lemma_operands_stay_none(
    g: Graph,
    srcs: Seq<NodeId>,
    i: int,
    names: NameMap,
    counters: Counters,
    vis: Seq<NodeId>,
)
    requires
        0 <= i <= srcs.len(),
        operands_ir(g, srcs.take(i), names, counters, vis).vars is None,
    ensures
        operands_ir(g, srcs, names, counters, vis) == operands_ir(g, srcs.take(i), names, counters, vis),
    decreases srcs.len() - i,
{
    if i < srcs.len() {
        assert(srcs.take(i + 1).drop_last() =~= srcs.take(i));
        lemma_operands_stay_none(g, srcs, i + 1, names, counters, vis);
    } else {
        assert(srcs.take(i) =~= srcs);
    }
}

/// Once an operand fails, the whole operand list leaves the path it left.
proof fn lemma_operands_vis_stay(
    g: Graph,
    srcs: Seq<NodeId>,
    i: int,
    names: NameMap,
    counters: Counters,
    vis: Seq<NodeId>,
)
    requires
        0 <= i <= srcs.len(),
        operands_ir(g, srcs.take(i), names, counters, vis).vars is None,
    ensures
        operands_vis(g, srcs, names, counters, vis) == operands_vis(g, srcs.take(i), names, counters, vis),
    decreases srcs.len() - i,
{
    if i < srcs.len() {
        assert(srcs.take(i + 1).drop_last() =~= srcs.take(i));
        lemma_operands_vis_stay(g, srcs, i + 1, names, counters, vis);
    } else {
        assert(srcs.take(i) =~= srcs);
    }
}

/// A complete source list has one node per input.
proof fn lemma_sources_len(g: Graph, id: NodeId, k: nat)
    ensures
        operand_sources(g, id, k) matches Some(s) ==> s.len() == k,
    decreases k,
{
    if k > 0 {
        lemma_sources_len(g, id, (k - 1) as nat);
    }
}

/// Once an input is unwired, no longer operand list is complete.
proof fn lemma_sources_stay_none(g: Graph, id: NodeId, i: nat, k: nat)
    requires
        i <= k,
        operand_sources(g, id, i) is None,
    ensures
        operand_sources(g, id, k) is None,
    decreases k - i,
{
    if i < k {
        lemma_sources_stay_none(g, id, i + 1, k);
    }
}

} // verus!
