//! Rust, JavaScript and C++ source emission from the IR. The three share a
//! brace-delimited statement layout and differ in keywords, printing and
//! loops; a variable's first assignment declares it.
use vstd::prelude::*;

use crate::emit_python::{concat, line_of, plugin_lines, push_plugin_lines};
use crate::ir::{
    functions_nesting, functions_view, lemma_functions_nesting_index, lemma_nesting_index,
    lemma_stmts_view_index, lemma_stmts_view_len, lemma_stmts_view_take, nesting, stmt_nesting,
    stmt_view, stmts_view, IRFunction, IRFunctionV, IROp, IROpV, IRStatement, IRStmt, IRStmtV,
};
use crate::text::{join, join_strings, owned, push_line, push_str, repeat, repeat_str, strs};
use crate::types::{compare_symbol, TargetLanguage};

verus! {

/// Whether `lang` writes blocks with braces.
pub open spec fn is_braced(lang: TargetLanguage) -> bool {
    lang != TargetLanguage::Python
}

/// One indentation step.
pub open spec fn indent_unit(lang: TargetLanguage) -> Seq<char> {
    if lang == TargetLanguage::JavaScript {
        "  "@
    } else {
        "    "@
    }
}

/// Indentation for a nesting level.
pub open spec fn braced_pad(lang: TargetLanguage, indent: nat) -> Seq<char> {
    repeat(indent_unit(lang), indent)
}

/// The keyword that introduces a computed value.
pub open spec fn value_keyword(lang: TargetLanguage) -> Seq<char> {
    if lang == TargetLanguage::Cpp {
        "auto "@
    } else {
        "let "@
    }
}

/// The keyword that introduces a user variable on its first assignment.
pub open spec fn variable_keyword(lang: TargetLanguage) -> Seq<char> {
    if lang == TargetLanguage::Rust {
        "let mut "@
    } else if lang == TargetLanguage::JavaScript {
        "let "@
    } else {
        "auto "@
    }
}

/// The line that prints a value.
pub open spec fn print_line(lang: TargetLanguage, pad: Seq<char>, v: Seq<char>) -> Seq<char> {
    if lang == TargetLanguage::Rust {
        pad + "println!(\"{}\", "@ + v + ");"@
    } else if lang == TargetLanguage::JavaScript {
        pad + "console.log("@ + v + ");"@
    } else {
        pad + "std::cout << "@ + v + " << std::endl;"@
    }
}

/// The lines of a conditional value.
pub open spec fn branch_lines(
    lang: TargetLanguage,
    pad: Seq<char>,
    v: Seq<char>,
    c: Seq<char>,
    t: Seq<char>,
    e: Seq<char>,
) -> Seq<Seq<char>> {
    if lang == TargetLanguage::Rust {
        seq![
            pad + "let "@ + v + " = if "@ + c + " {"@,
            pad + "    "@ + t,
            pad + "} else {"@,
            pad + "    "@ + e,
            pad + "};"@,
        ]
    } else if lang == TargetLanguage::JavaScript {
        seq![
            pad + "let "@ + v + ";"@,
            pad + "if ("@ + c + ") {"@,
            pad + "  "@ + v + " = "@ + t + ";"@,
            pad + "} else {"@,
            pad + "  "@ + v + " = "@ + e + ";"@,
            pad + "}"@,
        ]
    } else {
        seq![pad + "auto "@ + v + " = ("@ + c + ") ? ("@ + t + ") : ("@ + e + ");"@]
    }
}

/// The line that opens a loop.
pub open spec fn loop_open(lang: TargetLanguage, pad: Seq<char>) -> Seq<char> {
    if lang == TargetLanguage::Rust {
        pad + "loop {"@
    } else {
        pad + "while (true) {"@
    }
}

/// The line that leaves a loop once its condition is false.
pub open spec fn loop_check(lang: TargetLanguage, pad: Seq<char>, cv: Seq<char>) -> Seq<char> {
    if lang == TargetLanguage::Rust {
        pad + "    if !("@ + cv + ") { break; }"@
    } else if lang == TargetLanguage::JavaScript {
        pad + "  if (!("@ + cv + ")) break;"@
    } else {
        pad + "    if (!("@ + cv + ")) break;"@
    }
}

/// The lines of one compute statement.
pub open spec fn braced_compute_lines(
    lang: TargetLanguage,
    pad: Seq<char>,
    v: Seq<char>,
    op: IROpV,
) -> Seq<Seq<char>> {
    let kw = value_keyword(lang);
    match op {
        IROpV::Literal(x) => seq![pad + kw + v + " = "@ + x + ";"@],
        IROpV::Add(a, b) => seq![pad + kw + v + " = "@ + a + " + "@ + b + ";"@],
        IROpV::Sub(a, b) => seq![pad + kw + v + " = "@ + a + " - "@ + b + ";"@],
        IROpV::Mul(a, b) => seq![pad + kw + v + " = "@ + a + " * "@ + b + ";"@],
        IROpV::Div(a, b) => seq![pad + kw + v + " = "@ + a + " / "@ + b + ";"@],
        IROpV::Compare(o, a, b) => seq![
            pad + kw + v + " = "@ + a + " "@ + compare_symbol(o) + " "@ + b + ";"@,
        ],
        IROpV::And(a, b) => seq![pad + kw + v + " = "@ + a + " && "@ + b + ";"@],
        IROpV::Or(a, b) => seq![pad + kw + v + " = "@ + a + " || "@ + b + ";"@],
        IROpV::Not(a) => seq![pad + kw + v + " = !"@ + a + ";"@],
        IROpV::Branch { cond, then_val, else_val } => branch_lines(
            lang,
            pad,
            v,
            cond,
            then_val,
            else_val,
        ),
    }
}

/// The lines of one statement and the variables declared afterwards, given
/// the variables declared before.
pub open spec fn braced_stmt(
    lang: TargetLanguage,
    s: IRStmtV,
    indent: nat,
    declared: Seq<Seq<char>>,
) -> (Seq<Seq<char>>, Seq<Seq<char>>)
    decreases s,
{
    let pad = braced_pad(lang, indent);
    match s {
        IRStmtV::Compute(c) => (braced_compute_lines(lang, pad, c.var_name, c.op), declared),
        IRStmtV::SetVar { name, value_var } => if declared.contains(name) {
            (seq![pad + name + " = "@ + value_var + ";"@], declared)
        } else {
            (
                seq![pad + variable_keyword(lang) + name + " = "@ + value_var + ";"@],
                declared.push(name),
            )
        },
        IRStmtV::Print { value_var } => (seq![print_line(lang, pad, value_var)], declared),
        IRStmtV::Comment(m) => (seq![pad + "// "@ + m], declared),
        IRStmtV::CallFunction { var_name, func_name, args } => (
            seq![
                pad + value_keyword(lang) + var_name + " = "@ + func_name + "("@ + join(
                    args,
                    ", "@,
                ) + ");"@,
            ],
            declared,
        ),
        IRStmtV::Return(v) => (seq![pad + "return "@ + v + ";"@], declared),
        IRStmtV::PluginCall { plugin_id, .. } => (plugin_lines(plugin_id), declared),
        IRStmtV::While { cond_lines, cond_var, body } => {
            let c = braced_stmts(lang, cond_lines, indent + 1, declared);
            let b = braced_stmts(lang, body, indent + 1, c.1);
            (
                seq![loop_open(lang, pad)] + c.0 + seq![loop_check(lang, pad, cond_var)] + b.0
                    + seq![pad + "}"@],
                b.1,
            )
        },
    }
}

/// The lines of a statement sequence and the variables declared afterwards.
pub open spec fn braced_stmts(
    lang: TargetLanguage,
    ss: Seq<IRStmtV>,
    indent: nat,
    declared: Seq<Seq<char>>,
) -> (Seq<Seq<char>>, Seq<Seq<char>>)
    decreases ss,
{
    if ss.len() == 0 {
        (Seq::empty(), declared)
    } else {
        let a = braced_stmts(lang, ss.drop_last(), indent, declared);
        let b = braced_stmt(lang, ss.last(), indent, a.1);
        (a.0 + b.0, b.1)
    }
}

/// Each line followed by a newline.
pub open spec fn with_newlines(ls: Seq<Seq<char>>) -> Seq<char>
    decreases ls.len(),
{
    if ls.len() == 0 {
        Seq::empty()
    } else {
        with_newlines(ls.drop_last()) + ls.last() + "\n"@
    }
}

/// Each parameter followed by a type annotation.
pub open spec fn typed_params(params: Seq<Seq<char>>, prefix: Seq<char>, suffix: Seq<char>) -> Seq<
    Seq<char>,
> {
    params.map_values(|p: Seq<char>| prefix + p + suffix)
}

/// The Rust text of one function.
pub open spec fn rs_function_text(f: IRFunctionV) -> Seq<char> {
    "fn "@ + f.name + "("@ + join(typed_params(f.params, Seq::empty(), ": f64"@), ", "@)
        + ") -> f64 {\n"@ + with_newlines(
        braced_stmts(TargetLanguage::Rust, f.body, 1, Seq::empty()).0,
    ) + "    return 0.0;\n"@ + "}\n\n"@
}

/// The C++ text of one function.
pub open spec fn cpp_function_text(f: IRFunctionV) -> Seq<char> {
    "double "@ + f.name + "("@ + join(typed_params(f.params, "double "@, Seq::empty()), ", "@)
        + ") {\n"@ + with_newlines(braced_stmts(TargetLanguage::Cpp, f.body, 1, Seq::empty()).0)
        + "    return 0.0;\n"@ + "}\n\n"@
}

/// The texts of a sequence of functions in a braced language.
pub open spec fn functions_text(lang: TargetLanguage, fs: Seq<IRFunctionV>) -> Seq<char>
    decreases fs.len(),
{
    if fs.len() == 0 {
        Seq::empty()
    } else {
        functions_text(lang, fs.drop_last()) + if lang == TargetLanguage::Rust {
            rs_function_text(fs.last())
        } else {
            cpp_function_text(fs.last())
        }
    }
}

/// The whole Rust program.
pub open spec fn rs_program(fs: Seq<IRFunctionV>, main: Seq<IRStmtV>) -> Seq<char> {
    let funcs = functions_text(TargetLanguage::Rust, fs);
    if main.len() == 0 && fs.len() == 0 {
        funcs
            + "fn main() {\n    // Your generated code will appear here.\n    // Add Start, Set Variable, Print, and While Loop nodes.\n}"@
    } else {
        funcs + "fn main() {\n"@ + with_newlines(
            braced_stmts(TargetLanguage::Rust, main, 1, Seq::empty()).0,
        ) + "}"@
    }
}

/// The whole C++ program.
pub open spec fn cpp_program(fs: Seq<IRFunctionV>, main: Seq<IRStmtV>) -> Seq<char> {
    let funcs = "#include <iostream>\n\n"@ + functions_text(TargetLanguage::Cpp, fs);
    if main.len() == 0 && fs.len() == 0 {
        funcs
            + "int main() {\n    // Your generated code will appear here.\n    // Add Start, Set Variable, Print, and While Loop nodes.\n    return 0;\n}"@
    } else {
        funcs + "int main() {\n"@ + with_newlines(
            braced_stmts(TargetLanguage::Cpp, main, 1, Seq::empty()).0,
        ) + "    return 0;\n}"@
    }
}

/// The JavaScript lines of one function, blank line included.
pub open spec fn js_function_lines(f: IRFunctionV) -> Seq<Seq<char>> {
    seq!["function "@ + f.name + "("@ + join(f.params, ", "@) + ") {"@] + braced_stmts(
        TargetLanguage::JavaScript,
        f.body,
        1,
        Seq::empty(),
    ).0 + seq!["}"@, Seq::<char>::empty()]
}

/// The JavaScript lines of a sequence of functions.
pub open spec fn js_functions_lines(fs: Seq<IRFunctionV>) -> Seq<Seq<char>>
    decreases fs.len(),
{
    if fs.len() == 0 {
        Seq::empty()
    } else {
        js_functions_lines(fs.drop_last()) + js_function_lines(fs.last())
    }
}

/// The whole JavaScript program.
pub open spec fn js_program(fs: Seq<IRFunctionV>, main: Seq<IRStmtV>) -> Seq<char> {
    let body = if main.len() == 0 && fs.len() == 0 {
        seq![
            "// Your generated code will appear here."@,
            "// Add Start, Set Variable, Print, and While Loop nodes to see JavaScript code."@,
        ]
    } else {
        braced_stmts(TargetLanguage::JavaScript, main, 0, Seq::empty()).0
    };
    join(js_functions_lines(fs) + body, "\n"@)
}

/// Whether `name` has been declared.
fn is_declared(declared: &Vec<String>, name: &String) -> (b: bool)
    ensures
        b == strs(declared@).contains(name@),
{
    let mut j: usize = 0;
    while j < declared.len()
        invariant
            j <= declared@.len(),
            forall|k: int| 0 <= k < j ==> declared@[k]@ != name@,
        decreases declared@.len() - j,
    {
        if declared[j] == *name {
            proof {
                assert(strs(declared@)[j as int] == name@);
            }
            return true;
        }
        j = j + 1;
    }
    proof {
        if strs(declared@).contains(name@) {
            let k = choose|k: int| 0 <= k < strs(declared@).len() && strs(declared@)[k] == name@;
            assert(declared@[k]@ == name@);
        }
    }
    false
}

fn select(lang: TargetLanguage, rust: &'static str, js: &'static str, cpp: &'static str) -> (r:
    &'static str)
    requires
        is_braced(lang),
    ensures
        r@ == (if lang == TargetLanguage::Rust {
            rust@
        } else if lang == TargetLanguage::JavaScript {
            js@
        } else {
            cpp@
        }),
{
    match lang {
        TargetLanguage::Rust => rust,
        TargetLanguage::JavaScript => js,
        _ => cpp,
    }
}

/// Appends the lines of one compute statement.
fn emit_braced_compute(
    lang: TargetLanguage,
    s: &IRStatement,
    pad: &String,
    lines: &mut Vec<String>,
)
    requires
        is_braced(lang),
    ensures
        strs(final(lines)@) == strs(old(lines)@) + braced_compute_lines(
            lang,
            pad@,
            s.var_name@,
            s.op@,
        ),
{
    let ghost before = strs(lines@);
    emit_braced_compute_lines(lang, s, pad, lines);
    proof {
        assert(strs(lines@) =~~= before + braced_compute_lines(lang, pad@, s.var_name@, s.op@));
    }
}

/// The infix of a binary operation in a braced language.
pub open spec fn binary_infix(op: IROpV) -> Seq<char> {
    match op {
        IROpV::Add(_, _) => " + "@,
        IROpV::Sub(_, _) => " - "@,
        IROpV::Mul(_, _) => " * "@,
        IROpV::Div(_, _) => " / "@,
        IROpV::Compare(o, _, _) => " "@ + compare_symbol(o) + " "@,
        IROpV::And(_, _) => " && "@,
        IROpV::Or(_, _) => " || "@,
        _ => Seq::empty(),
    }
}

fn emit_braced_compute_lines(
    lang: TargetLanguage,
    s: &IRStatement,
    pad: &String,
    lines: &mut Vec<String>,
)
    requires
        is_braced(lang),
    ensures
        strs(final(lines)@) =~~= strs(old(lines)@) + braced_compute_lines(
            lang,
            pad@,
            s.var_name@,
            s.op@,
        ),
{
    let kw = select(lang, "let ", "let ", "auto ");
    let v = s.var_name.as_str();
    match &s.op {
        IROp::Literal(x) => {
            push_line(lines, line_of(pad, &[kw, v, " = ", x.as_str(), ";"]));
            proof {
                reveal_with_fuel(concat, 6);
            }
        },
        IROp::Not(a) => {
            push_line(lines, line_of(pad, &[kw, v, " = !", a.as_str(), ";"]));
            proof {
                reveal_with_fuel(concat, 6);
            }
        },
        IROp::Branch { cond, then_val, else_val } => {
            emit_braced_branch(lang, pad, v, cond.as_str(), then_val.as_str(), else_val.as_str(), lines);
        },
        IROp::Add(a, b) | IROp::Sub(a, b) | IROp::Mul(a, b) | IROp::Div(a, b) | IROp::And(a, b)
        | IROp::Or(a, b) | IROp::Compare(_, a, b) => {
            let infix = binary_infix_str(&s.op);
            push_line(lines, binary_line(pad, kw, v, a.as_str(), infix.as_str(), b.as_str()));
        },
    }
}

fn binary_line(pad: &String, kw: &str, v: &str, a: &str, infix: &str, b: &str) -> (r: String)
    ensures
        r@ == pad@ + kw@ + v@ + " = "@ + a@ + infix@ + b@ + ";"@,
{
    proof {
        reveal_with_fuel(concat, 8);
    }
    line_of(pad, &[kw, v, " = ", a, infix, b, ";"])
}

fn binary_infix_str(op: &IROp) -> (r: String)
    ensures
        r@ == binary_infix(op@),
{
    match op {
        IROp::Add(_, _) => owned(" + "),
        IROp::Sub(_, _) => owned(" - "),
        IROp::Mul(_, _) => owned(" * "),
        IROp::Div(_, _) => owned(" / "),
        IROp::Compare(o, _, _) => {
            let mut r = owned(" ");
            push_str(&mut r, o.symbol());
            push_str(&mut r, " ");
            r
        },
        IROp::And(_, _) => owned(" && "),
        IROp::Or(_, _) => owned(" || "),
        _ => String::new(),
    }
}

fn emit_braced_branch(
    lang: TargetLanguage,
    pad: &String,
    v: &str,
    c: &str,
    t: &str,
    e: &str,
    lines: &mut Vec<String>,
)
    requires
        is_braced(lang),
    ensures
        strs(final(lines)@) =~~= strs(old(lines)@) + branch_lines(lang, pad@, v@, c@, t@, e@),
{
    proof {
        reveal_with_fuel(concat, 10);
    }
    match lang {
        TargetLanguage::Rust => {
            push_line(lines, line_of(pad, &["let ", v, " = if ", c, " {"]));
            push_line(lines, line_of(pad, &["    ", t]));
            push_line(lines, line_of(pad, &["} else {"]));
            push_line(lines, line_of(pad, &["    ", e]));
            push_line(lines, line_of(pad, &["};"]));
        },
        TargetLanguage::JavaScript => {
            push_line(lines, line_of(pad, &["let ", v, ";"]));
            push_line(lines, line_of(pad, &["if (", c, ") {"]));
            push_line(lines, line_of(pad, &["  ", v, " = ", t, ";"]));
            push_line(lines, line_of(pad, &["} else {"]));
            push_line(lines, line_of(pad, &["  ", v, " = ", e, ";"]));
            push_line(lines, line_of(pad, &["}"]));
        },
        _ => {
            push_line(lines, line_of(pad, &["auto ", v, " = (", c, ") ? (", t, ") : (", e, ");"]));
        },
    }
}

/// The line that leaves a loop once its condition is false.
fn loop_check_line(lang: TargetLanguage, pad: &String, cond_var: &String) -> (r: String)
    requires
        is_braced(lang),
    ensures
        r@ == loop_check(lang, pad@, cond_var@),
{
    proof {
        reveal_with_fuel(concat, 4);
    }
    let cv = cond_var.as_str();
    match lang {
        TargetLanguage::Rust => line_of(pad, &["    if !(", cv, ") { break; }"]),
        TargetLanguage::JavaScript => line_of(pad, &["  if (!(", cv, ")) break;"]),
        _ => line_of(pad, &["    if (!(", cv, ")) break;"]),
    }
}

/// Appends the assignment of a user variable, declaring it on first use.
fn emit_braced_set_var(
    lang: TargetLanguage,
    name: &String,
    value_var: &String,
    pad: &String,
    lines: &mut Vec<String>,
    declared: &mut Vec<String>,
)
    requires
        is_braced(lang),
    ensures
        ({
            let r = braced_stmt(
                lang,
                IRStmtV::SetVar { name: name@, value_var: value_var@ },
                0,
                strs(old(declared)@),
            );
            &&& strs(final(lines)@) =~~= strs(old(lines)@) + seq![
                pad@ + (if strs(old(declared)@).contains(name@) {
                    Seq::empty()
                } else {
                    variable_keyword(lang)
                }) + name@ + " = "@ + value_var@ + ";"@,
            ]
            &&& strs(final(declared)@) == r.1
        }),
{
    proof {
        reveal_with_fuel(concat, 6);
    }
    if is_declared(declared, name) {
        push_line(lines, line_of(pad, &[name.as_str(), " = ", value_var.as_str(), ";"]));
    } else {
        push_line(declared, name.clone());
        let kw = select(lang, "let mut ", "let ", "auto ");
        push_line(lines, line_of(pad, &[kw, name.as_str(), " = ", value_var.as_str(), ";"]));
    }
}

/// Appends the line that prints a value.
fn emit_braced_print(lang: TargetLanguage, value_var: &String, pad: &String, lines: &mut Vec<String>)
    requires
        is_braced(lang),
    ensures
        strs(final(lines)@) =~~= strs(old(lines)@).push(print_line(lang, pad@, value_var@)),
{
    proof {
        reveal_with_fuel(concat, 4);
    }
    let v = value_var.as_str();
    match lang {
        TargetLanguage::Rust => {
            push_line(lines, line_of(pad, &["println!(\"{}\", ", v, ");"]));
        },
        TargetLanguage::JavaScript => {
            push_line(lines, line_of(pad, &["console.log(", v, ");"]));
        },
        _ => {
            push_line(lines, line_of(pad, &["std::cout << ", v, " << std::endl;"]));
        },
    }
}

/// Appends a function call bound to a fresh value.
fn emit_braced_call(
    lang: TargetLanguage,
    var_name: &String,
    func_name: &String,
    args: &Vec<String>,
    pad: &String,
    lines: &mut Vec<String>,
)
    requires
        is_braced(lang),
    ensures
        strs(final(lines)@) =~~= strs(old(lines)@).push(
            pad@ + value_keyword(lang) + var_name@ + " = "@ + func_name@ + "("@ + join(
                strs(args@),
                ", "@,
            ) + ");"@,
        ),
{
    proof {
        reveal_with_fuel(concat, 8);
    }
    let joined = join_strings(args, ", ");
    let kw = select(lang, "let ", "let ", "auto ");
    push_line(
        lines,
        line_of(pad, &[kw, var_name.as_str(), " = ", func_name.as_str(), "(", joined.as_str(), ");"]),
    );
}

/// Appends the lines of one statement and records newly declared variables.
#[verifier::rlimit(80)]
fn emit_braced_stmt(
    lang: TargetLanguage,
    stmt: &IRStmt,
    indent: usize,
    pad: &String,
    lines: &mut Vec<String>,
    declared: &mut Vec<String>,
)
    requires
        is_braced(lang),
        pad@ == braced_pad(lang, indent as nat),
        indent + stmt_nesting(stmt_view(*stmt)) <= usize::MAX,
    ensures
        ({
            let r = braced_stmt(lang, stmt_view(*stmt), indent as nat, strs(old(declared)@));
            &&& strs(final(lines)@) =~~= strs(old(lines)@) + r.0
            &&& strs(final(declared)@) == r.1
        }),
    decreases stmt_nesting(stmt_view(*stmt)), 0nat,
{
    match stmt {
        IRStmt::SetVar { name, value_var } => {
            emit_braced_set_var(lang, name, value_var, pad, lines, declared);
        },
        IRStmt::Print { value_var } => {
            emit_braced_print(lang, value_var, pad, lines);
        },
        IRStmt::Comment(msg) => {
            push_line(lines, line_of(pad, &["// ", msg.as_str()]));
            proof {
                reveal_with_fuel(concat, 3);
            }
        },
        IRStmt::CallFunction { var_name, func_name, args } => {
            emit_braced_call(lang, var_name, func_name, args, pad, lines);
        },
        IRStmt::Return(v) => {
            push_line(lines, line_of(pad, &["return ", v.as_str(), ";"]));
            proof {
                reveal_with_fuel(concat, 4);
            }
        },
        IRStmt::PluginCall { plugin_id, node_type, config, arg_vars, out_vars } => {
            push_plugin_lines(
                *plugin_id,
                *node_type,
                config,
                lang,
                pad.as_str(),
                arg_vars,
                out_vars,
                lines,
            );
        },
        IRStmt::Compute(s) => {
            let ghost before = strs(lines@);
            emit_braced_compute(lang, s, pad, &mut *lines);
            proof {
                assert(braced_stmt(lang, stmt_view(*stmt), indent as nat, strs(declared@)).0
                    == braced_compute_lines(lang, pad@, s.var_name@, s.op@));
                assert(strs(lines@) == before + braced_compute_lines(lang, pad@, s.var_name@, s.op@));
                assert(before == strs(old(lines)@));
                assert(strs(lines@) =~~= strs(old(lines)@) + braced_stmt(lang, stmt_view(*stmt), indent as nat, strs(old(declared)@)).0);
            }
        },
        IRStmt::While { cond_lines, cond_var, body } => {
            let open = select(lang, "loop {", "while (true) {", "while (true) {");
            push_line(lines, line_of(pad, &[open]));
            emit_braced_stmts(lang, cond_lines.as_slice(), indent + 1, lines, declared);
            push_line(lines, loop_check_line(lang, pad, cond_var));
            emit_braced_stmts(lang, body.as_slice(), indent + 1, lines, declared);
            push_line(lines, line_of(pad, &["}"]));
            proof {
                reveal_with_fuel(concat, 2);
            }
        },
    }
}

/// Appends the lines of `stmts` and records newly declared variables.
pub fn emit_braced_stmts(
    lang: TargetLanguage,
    stmts: &[IRStmt],
    indent: usize,
    lines: &mut Vec<String>,
    declared: &mut Vec<String>,
)
    requires
        is_braced(lang),
        indent + nesting(stmts_view(stmts@)) <= usize::MAX,
    ensures
        ({
            let r = braced_stmts(lang, stmts_view(stmts@), indent as nat, strs(old(declared)@));
            &&& strs(final(lines)@) == strs(old(lines)@) + r.0
            &&& strs(final(declared)@) == r.1
        }),
    decreases nesting(stmts_view(stmts@)), 1nat,
{
    let unit = select(lang, "    ", "  ", "    ");
    let pad = repeat_str(unit, indent);
    let ghost all = stmts_view(stmts@);
    let ghost start = strs(lines@);
    let ghost d0 = strs(declared@);
    let mut i: usize = 0;
    proof {
        assert(stmts@.take(0) =~= Seq::<IRStmt>::empty());
        assert(strs(lines@) =~= start + braced_stmts(
            lang,
            stmts_view(stmts@.take(0)),
            indent as nat,
            d0,
        ).0);
    }
    while i < stmts.len()
        invariant
            is_braced(lang),
            i <= stmts@.len(),
            all == stmts_view(stmts@),
            indent + nesting(all) <= usize::MAX,
            pad@ == braced_pad(lang, indent as nat),
            strs(lines@) == start + braced_stmts(
                lang,
                stmts_view(stmts@.take(i as int)),
                indent as nat,
                d0,
            ).0,
            strs(declared@) == braced_stmts(
                lang,
                stmts_view(stmts@.take(i as int)),
                indent as nat,
                d0,
            ).1,
        decreases stmts@.len() - i,
    {
        proof {
            lemma_stmts_view_take(stmts@, i as int);
            lemma_stmts_view_index(stmts@, i as int);
            lemma_nesting_index(all, i as int);
        }
        emit_braced_stmt(lang, &stmts[i], indent, &pad, lines, declared);
        proof {
            assert(stmts_view(stmts@.take(i + 1)).drop_last() =~= stmts_view(
                stmts@.take(i as int),
            ));
            let prev = braced_stmts(lang, stmts_view(stmts@.take(i as int)), indent as nat, d0);
            let cur = braced_stmt(lang, stmt_view(stmts@[i as int]), indent as nat, prev.1);
            assert(braced_stmts(lang, stmts_view(stmts@.take(i + 1)), indent as nat, d0) == (
                prev.0 + cur.0,
                cur.1,
            ));
            assert(strs(lines@) =~= start + (prev.0 + cur.0));
        }
        i = i + 1;
    }
    proof {
        assert(stmts@.take(stmts@.len() as int) =~= stmts@);
    }
}

/// Appends the Rust lines of `stmts` and records newly declared variables.
pub fn emit_rust_stmts(
    stmts: &[IRStmt],
    indent: usize,
    lines: &mut Vec<String>,
    declared: &mut Vec<String>,
)
    requires
        indent + nesting(stmts_view(stmts@)) <= usize::MAX,
    ensures
        ({
            let r = braced_stmts(
                TargetLanguage::Rust,
                stmts_view(stmts@),
                indent as nat,
                strs(old(declared)@),
            );
            &&& strs(final(lines)@) == strs(old(lines)@) + r.0
            &&& strs(final(declared)@) == r.1
        }),
{
    emit_braced_stmts(TargetLanguage::Rust, stmts, indent, lines, declared)
}

/// Appends the JavaScript lines of `stmts` and records newly declared
/// variables.
pub fn emit_js_stmts(
    stmts: &[IRStmt],
    indent: usize,
    lines: &mut Vec<String>,
    declared: &mut Vec<String>,
)
    requires
        indent + nesting(stmts_view(stmts@)) <= usize::MAX,
    ensures
        ({
            let r = braced_stmts(
                TargetLanguage::JavaScript,
                stmts_view(stmts@),
                indent as nat,
                strs(old(declared)@),
            );
            &&& strs(final(lines)@) == strs(old(lines)@) + r.0
            &&& strs(final(declared)@) == r.1
        }),
{
    emit_braced_stmts(TargetLanguage::JavaScript, stmts, indent, lines, declared)
}

/// Appends the C++ lines of `stmts` and records newly declared variables.
pub fn emit_cpp_stmts(
    stmts: &[IRStmt],
    indent: usize,
    lines: &mut Vec<String>,
    declared: &mut Vec<String>,
)
    requires
        indent + nesting(stmts_view(stmts@)) <= usize::MAX,
    ensures
        ({
            let r = braced_stmts(
                TargetLanguage::Cpp,
                stmts_view(stmts@),
                indent as nat,
                strs(old(declared)@),
            );
            &&& strs(final(lines)@) == strs(old(lines)@) + r.0
            &&& strs(final(declared)@) == r.1
        }),
{
    emit_braced_stmts(TargetLanguage::Cpp, stmts, indent, lines, declared)
}

/// Appends each line followed by a newline.
fn push_lines_with_newlines(out: &mut String, lines: &Vec<String>)
    ensures
        final(out)@ == old(out)@ + with_newlines(strs(lines@)),
{
    let ghost start = out@;
    let mut i: usize = 0;
    while i < lines.len()
        invariant
            i <= lines@.len(),
            out@ == start + with_newlines(strs(lines@).take(i as int)),
        decreases lines@.len() - i,
    {
        push_str(out, lines[i].as_str());
        push_str(out, "\n");
        proof {
            assert(strs(lines@).take(i + 1).drop_last() =~= strs(lines@).take(i as int));
            assert(out@ =~= start + with_newlines(strs(lines@).take(i + 1)));
        }
        i = i + 1;
    }
    proof {
        assert(strs(lines@).take(lines@.len() as int) =~= strs(lines@));
    }
}

/// Each parameter with a type prefix and suffix.
fn typed_param_list(params: &Vec<String>, prefix: &str, suffix: &str) -> (r: Vec<String>)
    ensures
        strs(r@) == typed_params(strs(params@), prefix@, suffix@),
{
    let mut r: Vec<String> = Vec::new();
    let mut i: usize = 0;
    while i < params.len()
        invariant
            i <= params@.len(),
            strs(r@) == typed_params(strs(params@), prefix@, suffix@).take(i as int),
        decreases params@.len() - i,
    {
        let mut p = owned(prefix);
        push_str(&mut p, params[i].as_str());
        push_str(&mut p, suffix);
        push_line(&mut r, p);
        proof {
            assert(strs(r@) =~= typed_params(strs(params@), prefix@, suffix@).take(i + 1));
        }
        i = i + 1;
    }
    proof {
        assert(typed_params(strs(params@), prefix@, suffix@).take(params@.len() as int)
            =~= typed_params(strs(params@), prefix@, suffix@));
    }
    r
}

/// The lines of a statement sequence in a fresh scope.
fn scoped_lines(lang: TargetLanguage, stmts: &[IRStmt], indent: usize) -> (r: Vec<String>)
    requires
        is_braced(lang),
        indent + nesting(stmts_view(stmts@)) <= usize::MAX,
    ensures
        strs(r@) == braced_stmts(lang, stmts_view(stmts@), indent as nat, Seq::empty()).0,
{
    let mut lines: Vec<String> = Vec::new();
    let mut declared: Vec<String> = Vec::new();
    proof {
        assert(strs(declared@) =~= Seq::<Seq<char>>::empty());
        assert(strs(lines@) =~= Seq::<Seq<char>>::empty());
    }
    emit_braced_stmts(lang, stmts, indent, &mut lines, &mut declared);
    proof {
        assert(strs(lines@) =~= braced_stmts(lang, stmts_view(stmts@), indent as nat, Seq::empty()).0);
    }
    lines
}

/// Appends the text of one function in Rust or C++.
fn push_function_text(lang: TargetLanguage, func: &IRFunction, out: &mut String)
    requires
        lang == TargetLanguage::Rust || lang == TargetLanguage::Cpp,
        nesting(stmts_view(func.body@)) < usize::MAX,
    ensures
        final(out)@ == old(out)@ + (if lang == TargetLanguage::Rust {
            rs_function_text(func@)
        } else {
            cpp_function_text(func@)
        }),
{
    let params_sig = if lang == TargetLanguage::Rust {
        typed_param_list(&func.params, "", ": f64")
    } else {
        typed_param_list(&func.params, "double ", "")
    };
    proof {
        reveal_strlit("");
        assert(""@ =~= Seq::<char>::empty());
    }
    let ghost start = out@;
    if lang == TargetLanguage::Rust {
        push_str(out, "fn ");
    } else {
        push_str(out, "double ");
    }
    push_str(out, func.name.as_str());
    push_str(out, "(");
    let joined = join_strings(&params_sig, ", ");
    push_str(out, joined.as_str());
    if lang == TargetLanguage::Rust {
        push_str(out, ") -> f64 {\n");
    } else {
        push_str(out, ") {\n");
    }
    let body_lines = scoped_lines(lang, func.body.as_slice(), 1);
    push_lines_with_newlines(out, &body_lines);
    push_str(out, "    return 0.0;\n");
    push_str(out, "}\n\n");
    proof {
        if lang == TargetLanguage::Rust {
            assert(out@ =~= start + rs_function_text(func@));
        } else {
            assert(out@ =~= start + cpp_function_text(func@));
        }
    }
}

/// Appends the texts of all functions in Rust or C++.
fn push_functions_text(lang: TargetLanguage, functions: &[IRFunction], out: &mut String)
    requires
        lang == TargetLanguage::Rust || lang == TargetLanguage::Cpp,
        functions_nesting(functions_view(functions@)) < usize::MAX,
    ensures
        final(out)@ == old(out)@ + functions_text(lang, functions_view(functions@)),
{
    let ghost fs = functions_view(functions@);
    let ghost start = out@;
    let mut i: usize = 0;
    proof {
        assert(out@ =~= start + functions_text(lang, fs.take(0)));
    }
    while i < functions.len()
        invariant
            lang == TargetLanguage::Rust || lang == TargetLanguage::Cpp,
            i <= functions@.len(),
            fs == functions_view(functions@),
            functions_nesting(fs) < usize::MAX,
            out@ == start + functions_text(lang, fs.take(i as int)),
        decreases functions@.len() - i,
    {
        proof {
            lemma_functions_nesting_index(fs, i as int);
            assert(fs[i as int] == functions@[i as int]@);
        }
        push_function_text(lang, &functions[i], out);
        proof {
            assert(fs.take(i + 1).drop_last() =~= fs.take(i as int));
            assert(out@ =~= start + functions_text(lang, fs.take(i + 1)));
        }
        i = i + 1;
    }
    proof {
        assert(fs.take(functions@.len() as int) =~= fs);
    }
}

/// The Rust program for `functions` followed by a `main` with the main
/// statements.
pub fn emit_rust(functions: &[IRFunction], main_stmts: &[IRStmt]) -> (code: String)
    requires
        functions_nesting(functions_view(functions@)) < usize::MAX,
        nesting(stmts_view(main_stmts@)) < usize::MAX,
    ensures
        code@ == rs_program(functions_view(functions@), stmts_view(main_stmts@)),
{
    let mut out = String::new();
    push_functions_text(TargetLanguage::Rust, functions, &mut out);
    proof {
        lemma_stmts_view_len(main_stmts@);
        assert(out@ =~= functions_text(TargetLanguage::Rust, functions_view(functions@)));
    }
    if main_stmts.len() == 0 && functions.len() == 0 {
        push_str(
            &mut out,
            "fn main() {\n    // Your generated code will appear here.\n    // Add Start, Set Variable, Print, and While Loop nodes.\n}",
        );
        return out;
    }
    push_str(&mut out, "fn main() {\n");
    let body = scoped_lines(TargetLanguage::Rust, main_stmts, 1);
    push_lines_with_newlines(&mut out, &body);
    push_str(&mut out, "}");
    out
}

/// The C++ program for `functions` followed by a `main` with the main
/// statements.
pub fn emit_cpp(functions: &[IRFunction], main_stmts: &[IRStmt]) -> (code: String)
    requires
        functions_nesting(functions_view(functions@)) < usize::MAX,
        nesting(stmts_view(main_stmts@)) < usize::MAX,
    ensures
        code@ == cpp_program(functions_view(functions@), stmts_view(main_stmts@)),
{
    let mut out = owned("#include <iostream>\n\n");
    push_functions_text(TargetLanguage::Cpp, functions, &mut out);
    proof {
        lemma_stmts_view_len(main_stmts@);
    }
    if main_stmts.len() == 0 && functions.len() == 0 {
        push_str(
            &mut out,
            "int main() {\n    // Your generated code will appear here.\n    // Add Start, Set Variable, Print, and While Loop nodes.\n    return 0;\n}",
        );
        return out;
    }
    push_str(&mut out, "int main() {\n");
    let body = scoped_lines(TargetLanguage::Cpp, main_stmts, 1);
    push_lines_with_newlines(&mut out, &body);
    push_str(&mut out, "    return 0;\n}");
    out
}

/// The JavaScript program for `functions` followed by the main statements.
pub fn emit_javascript(functions: &[IRFunction], main_stmts: &[IRStmt]) -> (code: String)
    requires
        functions_nesting(functions_view(functions@)) < usize::MAX,
        nesting(stmts_view(main_stmts@)) <= usize::MAX,
    ensures
        code@ == js_program(functions_view(functions@), stmts_view(main_stmts@)),
{
    let mut lines: Vec<String> = Vec::new();
    let ghost fs = functions_view(functions@);
    let mut i: usize = 0;
    proof {
        assert(strs(lines@) =~= js_functions_lines(fs.take(0)));
    }
    while i < functions.len()
        invariant
            i <= functions@.len(),
            fs == functions_view(functions@),
            functions_nesting(fs) < usize::MAX,
            strs(lines@) == js_functions_lines(fs.take(i as int)),
        decreases functions@.len() - i,
    {
        let func = &functions[i];
        proof {
            lemma_functions_nesting_index(fs, i as int);
            assert(fs[i as int] == func@);
        }
        let ghost before = strs(lines@);
        let params = join_strings(&func.params, ", ");
        push_line(&mut lines, line_of("function ", &[func.name.as_str(), "(", params.as_str(), ") {"]));
        let ghost after_header = strs(lines@);
        let mut declared: Vec<String> = Vec::new();
        proof {
            assert(strs(declared@) =~= Seq::<Seq<char>>::empty());
        }
        emit_js_stmts(func.body.as_slice(), 1, &mut lines, &mut declared);
        push_line(&mut lines, owned("}"));
        push_line(&mut lines, String::new());
        proof {
            reveal_with_fuel(concat, 5);
            assert(fs.take(i + 1).drop_last() =~= fs.take(i as int));
            assert(strs(lines@) =~~= before + js_function_lines(fs[i as int]));
        }
        i = i + 1;
    }
    proof {
        assert(fs.take(functions@.len() as int) =~= fs);
        lemma_stmts_view_len(main_stmts@);
    }
    let ghost after_functions = strs(lines@);
    if main_stmts.len() == 0 && functions.len() == 0 {
        push_line(&mut lines, owned("// Your generated code will appear here."));
        push_line(
            &mut lines,
            owned("// Add Start, Set Variable, Print, and While Loop nodes to see JavaScript code."),
        );
    } else {
        let mut declared: Vec<String> = Vec::new();
        proof {
            assert(strs(declared@) =~= Seq::<Seq<char>>::empty());
        }
        emit_js_stmts(main_stmts, 0, &mut lines, &mut declared);
    }
    proof {
        let main = stmts_view(main_stmts@);
        let body = if main.len() == 0 && fs.len() == 0 {
            seq![
                "// Your generated code will appear here."@,
                "// Add Start, Set Variable, Print, and While Loop nodes to see JavaScript code."@,
            ]
        } else {
            braced_stmts(TargetLanguage::JavaScript, main, 0, Seq::empty()).0
        };
        assert(strs(lines@) =~= after_functions + body);
    }
    join_strings(&lines, "\n")
}

} // verus!
