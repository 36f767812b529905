//! The intermediate representation that graphs compile to and that every
//! language emitter reads, with its mathematical view.
use vstd::prelude::*;

use crate::plugin::PluginConfig;
use crate::text::strs;
use crate::types::{CompareOp, NodeTypeId, PluginId};

verus! {

/// Static type of an IR value.
#[derive(Clone, Copy, PartialEq, Eq, Structural, Debug)]
pub enum IRType {
    Number,
    Bool,
}

/// The operation that computes one IR value; operands are variable names.
#[derive(Debug)]
pub enum IROp {
    Literal(String),
    Add(String, String),
    Sub(String, String),
    Mul(String, String),
    Div(String, String),
    Compare(CompareOp, String, String),
    And(String, String),
    Or(String, String),
    Not(String),
    Branch { cond: String, then_val: String, else_val: String },
}

/// Binds a fresh variable to the result of an operation.
#[derive(Debug)]
pub struct IRStatement {
    pub var_name: String,
    pub ir_type: IRType,
    pub op: IROp,
}

/// One statement of the IR.
#[derive(Debug)]
pub enum IRStmt {
    Compute(IRStatement),
    SetVar { name: String, value_var: String },
    Print { value_var: String },
    Comment(String),
    While { cond_lines: Vec<IRStmt>, cond_var: String, body: Vec<IRStmt> },
    CallFunction { var_name: String, func_name: String, args: Vec<String> },
    Return(String),
    PluginCall {
        plugin_id: PluginId,
        node_type: NodeTypeId,
        config: PluginConfig,
        arg_vars: Vec<String>,
        out_vars: Vec<String>,
    },
}

/// A function: name, parameter names and body.
#[derive(Debug)]
pub struct IRFunction {
    pub name: String,
    pub params: Vec<String>,
    pub body: Vec<IRStmt>,
}

/// View of an operation.
pub enum IROpV {
    Literal(Seq<char>),
    Add(Seq<char>, Seq<char>),
    Sub(Seq<char>, Seq<char>),
    Mul(Seq<char>, Seq<char>),
    Div(Seq<char>, Seq<char>),
    Compare(CompareOp, Seq<char>, Seq<char>),
    And(Seq<char>, Seq<char>),
    Or(Seq<char>, Seq<char>),
    Not(Seq<char>),
    Branch { cond: Seq<char>, then_val: Seq<char>, else_val: Seq<char> },
}

/// View of a compute statement.
pub struct IRStatementV {
    pub var_name: Seq<char>,
    pub ir_type: IRType,
    pub op: IROpV,
}

/// View of a statement.
pub enum IRStmtV {
    Compute(IRStatementV),
    SetVar { name: Seq<char>, value_var: Seq<char> },
    Print { value_var: Seq<char> },
    Comment(Seq<char>),
    While { cond_lines: Seq<IRStmtV>, cond_var: Seq<char>, body: Seq<IRStmtV> },
    CallFunction { var_name: Seq<char>, func_name: Seq<char>, args: Seq<Seq<char>> },
    Return(Seq<char>),
    PluginCall {
        plugin_id: PluginId,
        node_type: NodeTypeId,
        config: Seq<Seq<char>>,
        arg_vars: Seq<Seq<char>>,
        out_vars: Seq<Seq<char>>,
    },
}

/// View of a function.
pub struct IRFunctionV {
    pub name: Seq<char>,
    pub params: Seq<Seq<char>>,
    pub body: Seq<IRStmtV>,
}

impl View for IROp {
    type V = IROpV;

    open spec fn view(&self) -> IROpV {
        match self {
            IROp::Literal(v) => IROpV::Literal(v@),
            IROp::Add(a, b) => IROpV::Add(a@, b@),
            IROp::Sub(a, b) => IROpV::Sub(a@, b@),
            IROp::Mul(a, b) => IROpV::Mul(a@, b@),
            IROp::Div(a, b) => IROpV::Div(a@, b@),
            IROp::Compare(op, a, b) => IROpV::Compare(*op, a@, b@),
            IROp::And(a, b) => IROpV::And(a@, b@),
            IROp::Or(a, b) => IROpV::Or(a@, b@),
            IROp::Not(a) => IROpV::Not(a@),
            IROp::Branch { cond, then_val, else_val } => IROpV::Branch {
                cond: cond@,
                then_val: then_val@,
                else_val: else_val@,
            },
        }
    }
}

impl View for IRStatement {
    type V = IRStatementV;

    open spec fn view(&self) -> IRStatementV {
        IRStatementV { var_name: self.var_name@, ir_type: self.ir_type, op: self.op@ }
    }
}

/// View of a statement.
pub open spec fn stmt_view(s: IRStmt) -> IRStmtV
    decreases s,
{
    match s {
        IRStmt::Compute(c) => IRStmtV::Compute(c@),
        IRStmt::SetVar { name, value_var } => IRStmtV::SetVar { name: name@, value_var: value_var@ },
        IRStmt::Print { value_var } => IRStmtV::Print { value_var: value_var@ },
        IRStmt::Comment(m) => IRStmtV::Comment(m@),
        IRStmt::While { cond_lines, cond_var, body } => IRStmtV::While {
            cond_lines: stmts_view(cond_lines@),
            cond_var: cond_var@,
            body: stmts_view(body@),
        },
        IRStmt::CallFunction { var_name, func_name, args } => IRStmtV::CallFunction {
            var_name: var_name@,
            func_name: func_name@,
            args: strs(args@),
        },
        IRStmt::Return(v) => IRStmtV::Return(v@),
        IRStmt::PluginCall { plugin_id, node_type, config, arg_vars, out_vars } =>
            IRStmtV::PluginCall {
            plugin_id,
            node_type,
            config: strs(config.values@),
            arg_vars: strs(arg_vars@),
            out_vars: strs(out_vars@),
        },
    }
}

/// Views of a sequence of statements.
pub open spec fn stmts_view(ss: Seq<IRStmt>) -> Seq<IRStmtV>
    decreases ss,
{
    if ss.len() == 0 {
        Seq::empty()
    } else {
        stmts_view(ss.drop_last()).push(stmt_view(ss.last()))
    }
}

impl View for IRStmt {
    type V = IRStmtV;

    open spec fn view(&self) -> IRStmtV {
        stmt_view(*self)
    }
}

impl View for IRFunction {
    type V = IRFunctionV;

    open spec fn view(&self) -> IRFunctionV {
        IRFunctionV { name: self.name@, params: strs(self.params@), body: stmts_view(self.body@) }
    }
}

/// Views of a sequence of functions.
pub open spec fn functions_view(fs: Seq<IRFunction>) -> Seq<IRFunctionV> {
    fs.map_values(|f: IRFunction| f@)
}

/// How deeply `while` statements nest inside a statement.
pub open spec fn stmt_nesting(s: IRStmtV) -> nat
    decreases s,
{
    match s {
        IRStmtV::While { cond_lines, body, .. } => {
            let c = nesting(cond_lines);
            let b = nesting(body);
            1 + if c >= b {
                c
            } else {
                b
            }
        },
        _ => 0,
    }
}

/// How deeply `while` statements nest inside a statement sequence.
pub open spec fn nesting(ss: Seq<IRStmtV>) -> nat
    decreases ss,
{
    if ss.len() == 0 {
        0
    } else {
        let a = nesting(ss.drop_last());
        let b = stmt_nesting(ss.last());
        if a >= b {
            a
        } else {
            b
        }
    }
}

/// Nesting of the deepest function body.
pub open spec fn functions_nesting(fs: Seq<IRFunctionV>) -> nat
    decreases fs.len(),
{
    if fs.len() == 0 {
        0
    } else {
        let a = functions_nesting(fs.drop_last());
        let b = nesting(fs.last().body);
        if a >= b {
            a
        } else {
            b
        }
    }
}

/// A statement nests no deeper than its sequence.
pub proof fn lemma_nesting_index(ss: Seq<IRStmtV>, i: int)
    requires
        0 <= i < ss.len(),
    ensures
        stmt_nesting(ss[i]) <= nesting(ss),
    decreases ss.len(),
{
    if i < ss.len() - 1 {
        lemma_nesting_index(ss.drop_last(), i);
    }
}

/// A function body nests no deeper than the deepest one.
pub proof fn lemma_functions_nesting_index(fs: Seq<IRFunctionV>, i: int)
    requires
        0 <= i < fs.len(),
    ensures
        nesting(fs[i].body) <= functions_nesting(fs),
    decreases fs.len(),
{
    if i < fs.len() - 1 {
        lemma_functions_nesting_index(fs.drop_last(), i);
    }
}

/// The view of a prefix one longer is the shorter view with one more item.
pub proof fn lemma_stmts_view_take(ss: Seq<IRStmt>, i: int)
    requires
        0 <= i < ss.len(),
    ensures
        stmts_view(ss.take(i + 1)) == stmts_view(ss.take(i)).push(stmt_view(ss[i])),
        stmts_view(ss.take(i)).len() == i,
{
    assert(ss.take(i + 1).drop_last() =~= ss.take(i));
    lemma_stmts_view_len(ss.take(i));
}

/// Views keep the length.
pub proof fn lemma_stmts_view_len(ss: Seq<IRStmt>)
    ensures
        stmts_view(ss).len() == ss.len(),
    decreases ss.len(),
{
    if ss.len() > 0 {
        lemma_stmts_view_len(ss.drop_last());
    }
}

/// The view of an item is the item's view.
pub proof fn lemma_stmts_view_index(ss: Seq<IRStmt>, i: int)
    requires
        0 <= i < ss.len(),
    ensures
        stmts_view(ss)[i] == stmt_view(ss[i]),
        stmts_view(ss).len() == ss.len(),
    decreases ss.len(),
{
    lemma_stmts_view_len(ss);
    if i < ss.len() - 1 {
        lemma_stmts_view_index(ss.drop_last(), i);
    }
}

} // verus!
