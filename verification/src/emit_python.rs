//! Python source emission from the IR.
use vstd::prelude::*;

use crate::ir::{
    lemma_functions_nesting_index, lemma_nesting_index, lemma_stmts_view_index,
    lemma_stmts_view_len, lemma_stmts_view_take, nesting, functions_nesting, functions_view,
    stmt_nesting, stmt_view, stmts_view, IRFunction, IRFunctionV, IROp, IROpV, IRStatement, IRStmt, IRStmtV,
};
use crate::plugin::{plugin_registry, spec_plugin_def, stub_line, CodeGenCtx};
use crate::text::{join, join_strings, owned, push_line, push_str, repeat, repeat_str, strs};
use crate::types::{compare_symbol, TargetLanguage};

verus! {

/// The lines that a plugin call contributes to generated code, in any
/// language: the stub comment of a registered plugin, nothing otherwise.
pub open spec fn plugin_lines(plugin_id: u64) -> Seq<Seq<char>> {
    match spec_plugin_def(plugin_id) {
        Some(d) => seq![stub_line(d.title)],
        None => Seq::empty(),
    }
}

/// Python indentation for a nesting level.
pub open spec fn py_pad(indent: nat) -> Seq<char> {
    repeat("    "@, indent)
}

/// The Python line of one compute statement.
pub open spec fn py_compute_lines(pad: Seq<char>, v: Seq<char>, op: IROpV) -> Seq<Seq<char>> {
    match op {
        IROpV::Literal(x) => seq![pad + v + " = "@ + x],
        IROpV::Add(a, b) => seq![pad + v + " = "@ + a + " + "@ + b],
        IROpV::Sub(a, b) => seq![pad + v + " = "@ + a + " - "@ + b],
        IROpV::Mul(a, b) => seq![pad + v + " = "@ + a + " * "@ + b],
        IROpV::Div(a, b) => seq![pad + v + " = "@ + a + " / "@ + b],
        IROpV::Compare(o, a, b) => seq![
            pad + v + " = "@ + a + " "@ + compare_symbol(o) + " "@ + b,
        ],
        IROpV::And(a, b) => seq![pad + v + " = "@ + a + " and "@ + b],
        IROpV::Or(a, b) => seq![pad + v + " = "@ + a + " or "@ + b],
        IROpV::Not(a) => seq![pad + v + " = not "@ + a],
        IROpV::Branch { cond, then_val, else_val } => seq![
            pad + "if "@ + cond + ":"@,
            pad + "    "@ + v + " = "@ + then_val,
            pad + "else:"@,
            pad + "    "@ + v + " = "@ + else_val,
        ],
    }
}

/// The Python lines of one statement at an indentation level.
pub open spec fn py_stmt_lines(s: IRStmtV, indent: nat) -> Seq<Seq<char>>
    decreases s,
{
    let pad = py_pad(indent);
    match s {
        IRStmtV::Compute(c) => py_compute_lines(pad, c.var_name, c.op),
        IRStmtV::SetVar { name, value_var } => seq![pad + name + " = "@ + value_var],
        IRStmtV::Print { value_var } => seq![pad + "print("@ + value_var + ")"@],
        IRStmtV::Comment(m) => seq![pad + "# "@ + m],
        IRStmtV::CallFunction { var_name, func_name, args } => seq![
            pad + var_name + " = "@ + func_name + "("@ + join(args, ", "@) + ")"@,
        ],
        IRStmtV::Return(v) => seq![pad + "return "@ + v],
        IRStmtV::PluginCall { plugin_id, .. } => plugin_lines(plugin_id),
        IRStmtV::While { cond_lines, cond_var, body } => seq![pad + "while True:"@]
            + py_stmts_lines(cond_lines, indent + 1) + seq![
            pad + "    if not ("@ + cond_var + "):"@,
            pad + "        break"@,
        ] + py_stmts_lines(body, indent + 1),
    }
}

/// The Python lines of a statement sequence at an indentation level.
pub open spec fn py_stmts_lines(ss: Seq<IRStmtV>, indent: nat) -> Seq<Seq<char>>
    decreases ss,
{
    if ss.len() == 0 {
        Seq::empty()
    } else {
        py_stmts_lines(ss.drop_last(), indent) + py_stmt_lines(ss.last(), indent)
    }
}

/// The Python lines of one function definition, blank line included.
pub open spec fn py_function_lines(f: IRFunctionV) -> Seq<Seq<char>> {
    seq!["def "@ + f.name + "("@ + join(f.params, ", "@) + "):"@] + (if f.body.len() == 0 {
        seq!["    pass"@]
    } else {
        py_stmts_lines(f.body, 1)
    }) + seq![Seq::<char>::empty()]
}

/// The Python lines of a sequence of function definitions.
pub open spec fn py_functions_lines(fs: Seq<IRFunctionV>) -> Seq<Seq<char>>
    decreases fs.len(),
{
    if fs.len() == 0 {
        Seq::empty()
    } else {
        py_functions_lines(fs.drop_last()) + py_function_lines(fs.last())
    }
}

/// The whole Python program.
pub open spec fn py_program(fs: Seq<IRFunctionV>, main: Seq<IRStmtV>) -> Seq<char> {
    let body = if main.len() == 0 && fs.len() == 0 {
        seq![
            "# Your generated code will appear here."@,
            "# Add Start, Set Variable, Print, and While Loop nodes to see Python code."@,
        ]
    } else {
        py_stmts_lines(main, 0)
    };
    join(py_functions_lines(fs) + body, "\n"@)
}

/// Appends `parts` to a copy of `pad`.
pub fn line_of(pad: &str, parts: &[&str]) -> (r: String)
    ensures
        r@ == pad@ + concat(parts@),
{
    let mut r = owned(pad);
    let mut i: usize = 0;
    while i < parts.len()
        invariant
            i <= parts@.len(),
            r@ == pad@ + concat(parts@.take(i as int)),
        decreases parts@.len() - i,
    {
        push_str(&mut r, parts[i]);
        proof {
            assert(parts@.take(i + 1).drop_last() =~= parts@.take(i as int));
            assert(pad@ + concat(parts@.take(i as int)) + parts@[i as int]@ =~= pad@ + (concat(
                parts@.take(i as int),
            ) + parts@[i as int]@));
        }
        i = i + 1;
    }
    proof {
        assert(parts@.take(parts@.len() as int) =~= parts@);
    }
    r
}

/// The concatenation of string slices.
pub open spec fn concat(parts: Seq<&str>) -> Seq<char>
    decreases parts.len(),
{
    if parts.len() == 0 {
        Seq::empty()
    } else {
        concat(parts.drop_last()) + parts.last()@
    }
}

/// Appends the lines of a registered plugin's code, as every emitter does
/// for a plugin call.
pub fn push_plugin_lines(
    plugin_id: u64,
    node_type: u64,
    config: &crate::plugin::PluginConfig,
    lang: TargetLanguage,
    pad: &str,
    arg_vars: &Vec<String>,
    out_vars: &Vec<String>,
    lines: &mut Vec<String>,
)
    ensures
        strs(final(lines)@) == strs(old(lines)@) + plugin_lines(plugin_id),
{
    let registry = plugin_registry();
    let ghost start = strs(lines@);
    if let Some(plugin) = registry.find(plugin_id) {
        let gen_ctx = CodeGenCtx {
            lang,
            indent: pad,
            input_vars: arg_vars.as_slice(),
            output_vars: out_vars.as_slice(),
        };
        if let Some(result) = plugin.codegen(&gen_ctx, node_type, config) {
            let mut i: usize = 0;
            while i < result.imports.len()
                invariant
                    i <= result.imports@.len(),
                    strs(result.imports@) == Seq::<Seq<char>>::empty(),
                    strs(lines@) == start,
                decreases result.imports@.len() - i,
            {
                proof {
                    assert(strs(result.imports@).len() == result.imports@.len());
                }
                i = i + 1;
            }
            let mut j: usize = 0;
            while j < result.lines.len()
                invariant
                    j <= result.lines@.len(),
                    lines@.len() == start.len() + j,
                    start.len() == old(lines)@.len(),
                    strs(lines@) == start + strs(result.lines@).take(j as int),
                decreases result.lines@.len() - j,
            {
                push_line(lines, result.lines[j].clone());
                proof {
                    assert(strs(lines@) =~= start + strs(result.lines@).take(j + 1));
                }
                j = j + 1;
            }
            proof {
                assert(strs(result.lines@).take(result.lines@.len() as int) =~= strs(
                    result.lines@,
                ));
            }
        }
    } else {
        proof {
            assert(strs(lines@) =~= start + plugin_lines(plugin_id));
        }
    }
}

/// Appends the Python line(s) of one compute statement.
fn emit_python_compute(s: &IRStatement, pad: &String, lines: &mut Vec<String>)
    ensures
        strs(final(lines)@) =~~= strs(old(lines)@) + py_compute_lines(pad@, s.var_name@, s.op@),
{
    proof {
        reveal_with_fuel(concat, 8);
    }
    match &s.op {
        IROp::Literal(x) => {
            push_line(lines, line_of(pad, &[s.var_name.as_str(), " = ", x.as_str()]));
        },
        IROp::Add(a, b) => {
            push_line(lines, line_of(pad, &[s.var_name.as_str(), " = ", a.as_str(), " + ", b.as_str()]));
        },
        IROp::Sub(a, b) => {
            push_line(lines, line_of(pad, &[s.var_name.as_str(), " = ", a.as_str(), " - ", b.as_str()]));
        },
        IROp::Mul(a, b) => {
            push_line(lines, line_of(pad, &[s.var_name.as_str(), " = ", a.as_str(), " * ", b.as_str()]));
        },
        IROp::Div(a, b) => {
            push_line(lines, line_of(pad, &[s.var_name.as_str(), " = ", a.as_str(), " / ", b.as_str()]));
        },
        IROp::Compare(op, a, b) => {
            push_line(
                lines,
                line_of(
                    pad,
                    &[s.var_name.as_str(), " = ", a.as_str(), " ", op.symbol(), " ", b.as_str()],
                ),
            );
        },
        IROp::And(a, b) => {
            push_line(lines, line_of(pad, &[s.var_name.as_str(), " = ", a.as_str(), " and ", b.as_str()]));
        },
        IROp::Or(a, b) => {
            push_line(lines, line_of(pad, &[s.var_name.as_str(), " = ", a.as_str(), " or ", b.as_str()]));
        },
        IROp::Not(a) => {
            push_line(lines, line_of(pad, &[s.var_name.as_str(), " = not ", a.as_str()]));
        },
        IROp::Branch { cond, then_val, else_val } => {
            push_line(lines, line_of(pad, &["if ", cond.as_str(), ":"]));
            push_line(lines, line_of(pad, &["    ", s.var_name.as_str(), " = ", then_val.as_str()]));
            push_line(lines, line_of(pad, &["else:"]));
            push_line(lines, line_of(pad, &["    ", s.var_name.as_str(), " = ", else_val.as_str()]));
        },
    }
}

/// Appends the Python lines of one statement, indented `indent` levels.
fn emit_python_stmt(stmt: &IRStmt, indent: usize, pad: &String, lines: &mut Vec<String>)
    requires
        pad@ == py_pad(indent as nat),
        indent + stmt_nesting(stmt_view(*stmt)) <= usize::MAX,
    ensures
        strs(final(lines)@) =~~= strs(old(lines)@) + py_stmt_lines(stmt_view(*stmt), indent as nat),
    decreases stmt_nesting(stmt_view(*stmt)), 0nat,
{
    proof {
        reveal_with_fuel(concat, 8);
    }
    match stmt {
        IRStmt::Compute(s) => {
            emit_python_compute(s, pad, lines);
        },
        IRStmt::SetVar { name, value_var } => {
            push_line(lines, line_of(pad, &[name.as_str(), " = ", value_var.as_str()]));
        },
        IRStmt::Print { value_var } => {
            push_line(lines, line_of(pad, &["print(", value_var.as_str(), ")"]));
        },
        IRStmt::Comment(msg) => {
            push_line(lines, line_of(pad, &["# ", msg.as_str()]));
        },
        IRStmt::CallFunction { var_name, func_name, args } => {
            let joined = join_strings(args, ", ");
            push_line(
                lines,
                line_of(pad, &[var_name.as_str(), " = ", func_name.as_str(), "(", joined.as_str(), ")"]),
            );
        },
        IRStmt::Return(v) => {
            push_line(lines, line_of(pad, &["return ", v.as_str()]));
        },
        IRStmt::PluginCall { plugin_id, node_type, config, arg_vars, out_vars } => {
            push_plugin_lines(
                *plugin_id,
                *node_type,
                config,
                TargetLanguage::Python,
                pad.as_str(),
                arg_vars,
                out_vars,
                lines,
            );
        },
        IRStmt::While { cond_lines, cond_var, body } => {
            push_line(lines, line_of(pad, &["while True:"]));
            emit_python_stmts(cond_lines.as_slice(), indent + 1, lines);
            push_line(lines, line_of(pad, &["    if not (", cond_var.as_str(), "):"]));
            push_line(lines, line_of(pad, &["        break"]));
            emit_python_stmts(body.as_slice(), indent + 1, lines);
        },
    }
}

/// Appends the Python lines of `stmts`, indented `indent` levels.
pub fn emit_python_stmts(stmts: &[IRStmt], indent: usize, lines: &mut Vec<String>)
    requires
        indent + nesting(stmts_view(stmts@)) <= usize::MAX,
    ensures
        strs(final(lines)@) == strs(old(lines)@) + py_stmts_lines(stmts_view(stmts@), indent as nat),
    decreases nesting(stmts_view(stmts@)), 1nat,
{
    let pad = repeat_str("    ", indent);
    let ghost all = stmts_view(stmts@);
    let ghost start = strs(lines@);
    let mut i: usize = 0;
    proof {
        assert(stmts@.take(0) =~= Seq::<IRStmt>::empty());
        assert(strs(lines@) =~= start + py_stmts_lines(stmts_view(stmts@.take(0)), indent as nat));
    }
    while i < stmts.len()
        invariant
            i <= stmts@.len(),
            all == stmts_view(stmts@),
            indent + nesting(all) <= usize::MAX,
            pad@ == py_pad(indent as nat),
            strs(lines@) == start + py_stmts_lines(stmts_view(stmts@.take(i as int)), indent as nat),
        decreases stmts@.len() - i,
    {
        proof {
            lemma_stmts_view_take(stmts@, i as int);
            lemma_stmts_view_index(stmts@, i as int);
            lemma_nesting_index(all, i as int);
        }
        let ghost before = strs(lines@);
        emit_python_stmt(&stmts[i], indent, &pad, lines);
        proof {
            let sv = stmt_view(stmts@[i as int]);
            assert(stmts_view(stmts@.take(i + 1)).drop_last() =~= stmts_view(stmts@.take(i as int)));
            assert(py_stmts_lines(stmts_view(stmts@.take(i + 1)), indent as nat) =~= py_stmts_lines(
                stmts_view(stmts@.take(i as int)),
                indent as nat,
            ) + py_stmt_lines(sv, indent as nat));
            assert(strs(lines@) =~= start + py_stmts_lines(stmts_view(stmts@.take(i + 1)), indent as nat));
        }
        i = i + 1;
    }
    proof {
        assert(stmts@.take(stmts@.len() as int) =~= stmts@);
    }
}

/// The Python program for `functions` followed by the main statements.
pub fn emit_python(functions: &[IRFunction], main_stmts: &[IRStmt]) -> (code: String)
    requires
        functions_nesting(functions_view(functions@)) < usize::MAX,
        nesting(stmts_view(main_stmts@)) <= usize::MAX,
    ensures
        code@ == py_program(functions_view(functions@), stmts_view(main_stmts@)),
{
    let mut lines: Vec<String> = Vec::new();
    let ghost fs = functions_view(functions@);
    let mut i: usize = 0;
    proof {
        assert(strs(lines@) =~= py_functions_lines(fs.take(0)));
    }
    while i < functions.len()
        invariant
            i <= functions@.len(),
            fs == functions_view(functions@),
            functions_nesting(fs) < usize::MAX,
            strs(lines@) == py_functions_lines(fs.take(i as int)),
        decreases functions@.len() - i,
    {
        let func = &functions[i];
        proof {
            lemma_functions_nesting_index(fs, i as int);
            assert(fs[i as int] == func@);
        }
        let ghost before = strs(lines@);
        let params = join_strings(&func.params, ", ");
        push_line(&mut lines, line_of("def ", &[func.name.as_str(), "(", params.as_str(), "):"]));
        if func.body.len() == 0 {
            push_line(&mut lines, owned("    pass"));
        } else {
            emit_python_stmts(func.body.as_slice(), 1, &mut lines);
        }
        push_line(&mut lines, String::new());
        proof {
            reveal_with_fuel(concat, 8);
            lemma_stmts_view_len(func.body@);
            assert(fs.take(i + 1).drop_last() =~= fs.take(i as int));
            assert(strs(lines@) =~~= before + py_function_lines(fs[i as int]));
        }
        i = i + 1;
    }
    proof {
        assert(fs.take(functions@.len() as int) =~= fs);
        lemma_stmts_view_len(main_stmts@);
    }
    let ghost after_functions = strs(lines@);
    if main_stmts.len() == 0 && functions.len() == 0 {
        push_line(&mut lines, owned("# Your generated code will appear here."));
        push_line(
            &mut lines,
            owned("# Add Start, Set Variable, Print, and While Loop nodes to see Python code."),
        );
    } else {
        emit_python_stmts(main_stmts, 0, &mut lines);
    }
    proof {
        let main = stmts_view(main_stmts@);
        let body = if main.len() == 0 && fs.len() == 0 {
            seq![
                "# Your generated code will appear here."@,
                "# Add Start, Set Variable, Print, and While Loop nodes to see Python code."@,
            ]
        } else {
            py_stmts_lines(main, 0)
        };
        assert(strs(lines@) =~= after_functions + body);
    }
    join_strings(&lines, "\n")
}

} // verus!
