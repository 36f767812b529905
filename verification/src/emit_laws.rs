//! What each language's line for a computation means: the operator that
//! joins the operands is the language's own token for the IR operation,
//! and a conditional value takes the then-value when the condition holds
//! and the else-value otherwise. Stated as a fixed table of each
//! language's syntax.
use vstd::prelude::*;

use crate::emit_braced::{braced_compute_lines, braced_pad, braced_stmt};
use crate::emit_python::{py_compute_lines, py_pad, py_stmt_lines};
use crate::ir::{IROpV, IRStmtV};
use crate::types::{CompareOp, TargetLanguage};

verus! {

/// The token, with its surrounding spaces, that joins the two operands of
/// a binary operation in `lang` (none for an operation that is not
/// binary): arithmetic by its sign, comparison by its relation, and logic
/// by Python's words or the braced languages' symbols.
pub open spec fn infix_token(lang: TargetLanguage, op: IROpV) -> Option<Seq<char>> {
    match op {
        IROpV::Add(_, _) => Some(" + "@),
        IROpV::Sub(_, _) => Some(" - "@),
        IROpV::Mul(_, _) => Some(" * "@),
        IROpV::Div(_, _) => Some(" / "@),
        IROpV::Compare(CompareOp::GreaterThan, _, _) => Some(" > "@),
        IROpV::Compare(CompareOp::LessThan, _, _) => Some(" < "@),
        IROpV::Compare(CompareOp::EqualTo, _, _) => Some(" == "@),
        IROpV::And(_, _) => Some(if lang == TargetLanguage::Python {
            " and "@
        } else {
            " && "@
        }),
        IROpV::Or(_, _) => Some(if lang == TargetLanguage::Python {
            " or "@
        } else {
            " || "@
        }),
        _ => None,
    }
}

/// The first and second operands of a binary operation.
pub open spec fn operand_pair(op: IROpV) -> (Seq<char>, Seq<char>) {
    match op {
        IROpV::Add(a, b) => (a, b),
        IROpV::Sub(a, b) => (a, b),
        IROpV::Mul(a, b) => (a, b),
        IROpV::Div(a, b) => (a, b),
        IROpV::Compare(_, a, b) => (a, b),
        IROpV::And(a, b) => (a, b),
        IROpV::Or(a, b) => (a, b),
        _ => (Seq::empty(), Seq::empty()),
    }
}

/// The start of a line that assigns variable `v` a computed value.
pub open spec fn assign_start(lang: TargetLanguage, pad: Seq<char>, v: Seq<char>) -> Seq<char> {
    match lang {
        TargetLanguage::Python => pad + v + " = "@,
        TargetLanguage::Cpp => pad + "auto "@ + v + " = "@,
        _ => pad + "let "@ + v + " = "@,
    }
}

/// The end of such a line.
pub open spec fn assign_end(lang: TargetLanguage) -> Seq<char> {
    if lang == TargetLanguage::Python {
        Seq::empty()
    } else {
        ";"@
    }
}

/// The lines that compute `v` by `op` in `lang`.
pub open spec fn compute_lines(lang: TargetLanguage, pad: Seq<char>, v: Seq<char>, op: IROpV) -> Seq<Seq<char>> {
    if lang == TargetLanguage::Python {
        py_compute_lines(pad, v, op)
    } else {
        braced_compute_lines(lang, pad, v, op)
    }
}

/// In every language, a binary computation is one line: the assignment of
/// `v`, the first operand, the language's token for the operation, the
/// second operand, and the line's end.
pub proof fn law_binary_operator_tokens(lang: TargetLanguage, pad: Seq<char>, v: Seq<char>, op: IROpV)
    requires
        infix_token(lang, op) is Some,
    ensures
        compute_lines(lang, pad, v, op) == seq![
            assign_start(lang, pad, v) + operand_pair(op).0 + infix_token(lang, op)->0 + operand_pair(op).1
                + assign_end(lang),
        ],
{
    reveal_strlit(" ");
    reveal_strlit(">");
    reveal_strlit("<");
    reveal_strlit("==");
    reveal_strlit(" > ");
    reveal_strlit(" < ");
    reveal_strlit(" == ");
    reveal_strlit("");
    let (a, b) = operand_pair(op);
    match op {
        IROpV::Compare(o, _, _) => {
            match o {
                CompareOp::GreaterThan => {
                    assert(" "@ + ">"@ + " "@ =~= " > "@);
                },
                CompareOp::LessThan => {
                    assert(" "@ + "<"@ + " "@ =~= " < "@);
                },
                CompareOp::EqualTo => {
                    assert(" "@ + "=="@ + " "@ =~= " == "@);
                },
            }
        },
        _ => {},
    }
    let l = compute_lines(lang, pad, v, op);
    assert(l[0] =~= assign_start(lang, pad, v) + a + infix_token(lang, op)->0 + b + assign_end(lang));
    assert(l =~= seq![
        assign_start(lang, pad, v) + a + infix_token(lang, op)->0 + b + assign_end(lang),
    ]);
}

/// In every language, a negation assigns `v` the language's "not" (`not `
/// in Python, `!` elsewhere) applied to its operand, and a literal assigns
/// `v` the literal's text.
pub proof fn law_unary_and_literal_lines(lang: TargetLanguage, pad: Seq<char>, v: Seq<char>, x: Seq<char>)
    ensures
        compute_lines(lang, pad, v, IROpV::Not(x)) == seq![
            assign_start(lang, pad, v) + (if lang == TargetLanguage::Python {
                "not "@
            } else {
                "!"@
            }) + x + assign_end(lang),
        ],
        compute_lines(lang, pad, v, IROpV::Literal(x)) == seq![assign_start(lang, pad, v) + x + assign_end(lang)],
{
    reveal_strlit(" = ");
    reveal_strlit(" = not ");
    reveal_strlit("not ");
    reveal_strlit(" = !");
    reveal_strlit("!");
    reveal_strlit("");
    assert(" = "@ + "not "@ =~= " = not "@);
    assert(" = "@ + "!"@ =~= " = !"@);
    let n = compute_lines(lang, pad, v, IROpV::Not(x));
    let want = assign_start(lang, pad, v) + (if lang == TargetLanguage::Python {
        "not "@
    } else {
        "!"@
    }) + x + assign_end(lang);
    assert(n[0] =~= want);
    assert(n =~= seq![want]);
    let l = compute_lines(lang, pad, v, IROpV::Literal(x));
    assert(l[0] =~= assign_start(lang, pad, v) + x + assign_end(lang));
    assert(l =~= seq![assign_start(lang, pad, v) + x + assign_end(lang)]);
}

/// In every language, a conditional value of `v` takes `then_val` when
/// `cond` holds and `else_val` otherwise: Python and JavaScript assign
/// `then_val` in the `if` block and `else_val` in the `else` block; Rust's
/// `if` expression yields `then_val` from its first block and `else_val`
/// from its second; C++'s `?:` has `then_val` after `?` and `else_val`
/// after `:`.
pub proof fn law_branch_takes_then_when_cond(
    lang: TargetLanguage,
    pad: Seq<char>,
    v: Seq<char>,
    cond: Seq<char>,
    then_val: Seq<char>,
    else_val: Seq<char>,
)
    ensures
        compute_lines(lang, pad, v, IROpV::Branch { cond, then_val, else_val }) == match lang {
            TargetLanguage::Python => seq![
                pad + "if "@ + cond + ":"@,
                pad + "    "@ + v + " = "@ + then_val,
                pad + "else:"@,
                pad + "    "@ + v + " = "@ + else_val,
            ],
            TargetLanguage::Rust => seq![
                pad + "let "@ + v + " = if "@ + cond + " {"@,
                pad + "    "@ + then_val,
                pad + "} else {"@,
                pad + "    "@ + else_val,
                pad + "};"@,
            ],
            TargetLanguage::JavaScript => seq![
                pad + "let "@ + v + ";"@,
                pad + "if ("@ + cond + ") {"@,
                pad + "  "@ + v + " = "@ + then_val + ";"@,
                pad + "} else {"@,
                pad + "  "@ + v + " = "@ + else_val + ";"@,
                pad + "}"@,
            ],
            TargetLanguage::Cpp => seq![
                pad + "auto "@ + v + " = ("@ + cond + ") ? ("@ + then_val + ") : ("@ + else_val + ");"@,
            ],
        },
{
}

/// The lines of one statement in `lang` at an indentation level, with
/// the user variables declared so far.
pub open spec fn stmt_lines(lang: TargetLanguage, st: IRStmtV, indent: nat, declared: Seq<Seq<char>>) -> Seq<Seq<char>> {
    if lang == TargetLanguage::Python {
        py_stmt_lines(st, indent)
    } else {
        braced_stmt(lang, st, indent, declared).0
    }
}

/// The indentation of a level in `lang`.
pub open spec fn pad_of(lang: TargetLanguage, indent: nat) -> Seq<char> {
    if lang == TargetLanguage::Python {
        py_pad(indent)
    } else {
        braced_pad(lang, indent)
    }
}

/// In every language, a Print statement prints exactly its value's
/// variable with the language's console output, and a Return statement
/// returns exactly its variable.
pub proof fn law_print_and_return_lines(lang: TargetLanguage, v: Seq<char>, indent: nat, declared: Seq<Seq<char>>)
    ensures
        stmt_lines(lang, IRStmtV::Print { value_var: v }, indent, declared) == seq![
            pad_of(lang, indent) + match lang {
                TargetLanguage::Python => "print("@ + v + ")"@,
                TargetLanguage::Rust => "println!(\"{}\", "@ + v + ");"@,
                TargetLanguage::JavaScript => "console.log("@ + v + ");"@,
                TargetLanguage::Cpp => "std::cout << "@ + v + " << std::endl;"@,
            },
        ],
        stmt_lines(lang, IRStmtV::Return(v), indent, declared) == seq![
            pad_of(lang, indent) + "return "@ + v + assign_end(lang),
        ],
{
    let p = pad_of(lang, indent);
    let l = stmt_lines(lang, IRStmtV::Print { value_var: v }, indent, declared);
    let want = p + match lang {
        TargetLanguage::Python => "print("@ + v + ")"@,
        TargetLanguage::Rust => "println!(\"{}\", "@ + v + ");"@,
        TargetLanguage::JavaScript => "console.log("@ + v + ");"@,
        TargetLanguage::Cpp => "std::cout << "@ + v + " << std::endl;"@,
    };
    assert(l[0] =~= want);
    assert(l =~= seq![want]);
    reveal_strlit("");
    let r = stmt_lines(lang, IRStmtV::Return(v), indent, declared);
    assert(r[0] =~= p + "return "@ + v + assign_end(lang));
    assert(r =~= seq![p + "return "@ + v + assign_end(lang)]);
}

} // verus!
