//! The printer for handler code on a screen: TypeScript in which the screen's `state` cells
//! are read and written through its state object.
use vstd::prelude::*;
use vstd::string::*;

use crate::ast::{Expr, MatchArm, Stmt};
use crate::emit::{
    at_text, binop_sym, binop_text, emit_at, emit_field, emit_math, emit_string_method,
    field_text, math_text, names_parts, names_text, nav_target_js, nav_target_text, starts_upper,
    starts_upper_text, string_method_text, unop_sym, unop_text, FieldStyle,
};
use crate::emit_stmt::{arm_head, arm_head_text};
use crate::fmt::{float_lit, float_lit_text};
use crate::num::{i64_text, int_text};
use crate::text::{
    after_prefix, cat2, cat3, cat4, cat5, cat6, cat7, cat9, join_text, same, strip_prefix, Parts,
};
use crate::unicode::{debug_text, quoted};

verus! {

/// How handler code refers to a name: a cell of the screen goes through its state object.
pub open spec fn cell_text(name: Seq<char>, screen: Seq<char>, sv: Seq<Seq<char>>) -> Seq<char> {
    if sv.contains(name) {
        screen + "_state."@ + name
    } else {
        name
    }
}

/// How handler code refers to a name.
pub fn emit_cell(name: &str, screen: &str, sv: &Parts) -> (r: String)
    ensures
        r@ == cell_text(name@, screen@, sv@),
{
    if sv.contains(name) {
        cat3(screen, "_state.", name)
    } else {
        name.to_owned()
    }
}

/// The text of an expression in handler code on a screen whose cells are `sv`.
pub open spec fn h_expr_text(e: Expr, screen: Seq<char>, sv: Seq<Seq<char>>) -> Seq<char>
    decreases e, 1int,
{
    match e {
        Expr::Ident(v) => cell_text(v@, screen, sv),
        Expr::Int(n) => int_text(n as int),
        Expr::Float(f) => float_lit_text(f@),
        Expr::Str(s) => debug_text(s@),
        Expr::Bool(b) => if b {
            "true"@
        } else {
            "false"@
        },
        Expr::Field { base, field } => if *base is Ident && starts_upper_text(base->Ident_0@) {
            debug_text(field@)
        } else {
            h_expr_text(*base, screen, sv) + "."@ + field@
        },
        Expr::Call { .. } => h_call_text(e, screen, sv),
        Expr::Unary { op, expr } => unop_text(op) + h_expr_text(*expr, screen, sv),
        Expr::Binary { op, left, right } => "("@ + h_expr_text(*left, screen, sv) + " "@
            + binop_text(op) + " "@ + h_expr_text(*right, screen, sv) + ")"@,
        Expr::Declassify(inner) => h_expr_text(*inner, screen, sv),
        Expr::Raw(inner) => h_expr_text(*inner, screen, sv),
        Expr::Await(inner) => "await "@ + h_expr_text(*inner, screen, sv),
        Expr::MethodCall { .. } => h_method_text(e, screen, sv),
        Expr::NoneLit => "null"@,
        Expr::ListLit(items) => "["@ + join_text(
            h_exprs_text(items@, items@.len() as int, screen, sv),
            ", "@,
        ) + "]"@,
        Expr::Ternary { cond, yes, otherwise } => "("@ + h_expr_text(*cond, screen, sv) + " ? "@
            + h_expr_text(*yes, screen, sv) + " : "@ + h_expr_text(*otherwise, screen, sv) + ")"@,
        Expr::Record { fields, .. } => "{ "@ + join_text(
            h_fields_text(FieldStyle::Object, fields@, fields@.len() as int, screen, sv),
            ", "@,
        ) + " }"@,
        Expr::Range { start, end } => {
            let s = h_expr_text(*start, screen, sv);
            let n = h_expr_text(*end, screen, sv);
            "Array.from({length: ("@ + n + ") - ("@ + s + ")}, (_, __i) => __i + ("@ + s + "))"@
        },
        Expr::Closure { params, body } => "("@ + join_text(names_text(params@), ", "@) + ") => "@
            + h_expr_text(*body, screen, sv),
        Expr::Index { base, index } => at_text(
            h_expr_text(*base, screen, sv),
            h_expr_text(*index, screen, sv),
            true,
        ),
    }
}

/// The texts of the first `n` expressions.
pub open spec fn h_exprs_text(es: Seq<Expr>, n: int, screen: Seq<char>, sv: Seq<Seq<char>>) -> Seq<
    Seq<char>,
>
    decreases es, n,
{
    if n <= 0 || n > es.len() {
        Seq::empty()
    } else {
        h_exprs_text(es, n - 1, screen, sv).push(h_expr_text(es[n - 1], screen, sv))
    }
}

/// The texts of the first `n` named fields.
pub open spec fn h_fields_text(
    style: FieldStyle,
    fs: Seq<(String, Expr)>,
    n: int,
    screen: Seq<char>,
    sv: Seq<Seq<char>>,
) -> Seq<Seq<char>>
    decreases fs, n,
{
    if n <= 0 || n > fs.len() {
        Seq::empty()
    } else {
        h_fields_text(style, fs, n - 1, screen, sv).push(
            field_text(style, fs[n - 1].0@, h_expr_text(fs[n - 1].1, screen, sv)),
        )
    }
}

/// The text of argument `i`, or a default where there is none.
pub open spec fn h_arg_text(
    args: Seq<Expr>,
    i: int,
    screen: Seq<char>,
    sv: Seq<Seq<char>>,
    default: Seq<char>,
) -> Seq<char>
    decreases args, 0int,
{
    if 0 <= i < args.len() {
        h_expr_text(args[i], screen, sv)
    } else {
        default
    }
}

/// The text of a call of a named function.
pub open spec fn h_call_text(e: Expr, screen: Seq<char>, sv: Seq<Seq<char>>) -> Seq<char>
    decreases e, 0int,
{
    match e {
        Expr::Call { callee, args } => {
            let a0 = h_arg_text(args@, 0, screen, sv, ""@);
            let a1 = h_arg_text(args@, 1, screen, sv, ""@);
            if callee@ == "now"@ && args@.len() == 0 {
                "Date.now()"@
            } else if callee@ == "decimal"@ {
                h_arg_text(args@, 0, screen, sv, "\"\""@)
            } else if after_prefix(callee@, "__dec_"@) is Some {
                "__dec."@ + after_prefix(callee@, "__dec_"@)->0 + "("@ + a0 + ", "@ + a1 + ")"@
            } else if callee@ == "__list_contains"@ {
                a0 + ".some((__e) => JSON.stringify(__e) === JSON.stringify("@ + a1 + "))"@
            } else if callee@ == "__str_concat"@ {
                "(\"\" + ("@ + a0 + ") + ("@ + a1 + "))"@
            } else if callee@ == "navigate"@ {
                if args@.len() > 0 && args@[0] is Record {
                    let fields = args@[0]->Record_fields@;
                    "__navigateTo("@ + debug_text(args@[0]->Record_name@) + ", { "@ + join_text(
                        h_fields_text(FieldStyle::Route, fields, fields.len() as int, screen, sv),
                        ", "@,
                    ) + " })"@
                } else {
                    "__navigate("@ + nav_target_text(args@) + ")"@
                }
            } else if callee@ == "toggle_theme"@ {
                "__toggleTheme()"@
            } else {
                let a = h_exprs_text(args@, args@.len() as int, screen, sv);
                match math_text(callee@, a, true) {
                    Some(t) => t,
                    None => callee@ + "("@ + join_text(a, ", "@) + ")"@,
                }
            }
        },
        _ => Seq::empty(),
    }
}

/// The text of a method call.
pub open spec fn h_method_text(e: Expr, screen: Seq<char>, sv: Seq<Seq<char>>) -> Seq<char>
    decreases e, 0int,
{
    match e {
        Expr::MethodCall { receiver, method, args } => {
            let recv = h_expr_text(*receiver, screen, sv);
            let a0 = h_arg_text(args@, 0, screen, sv, ""@);
            let a1 = h_arg_text(args@, 1, screen, sv, ""@);
            if method@ == "or"@ && args@.len() == 1 {
                "("@ + recv + " ?? "@ + a0 + ")"@
            } else if method@ == "map"@ && args@.len() == 1 {
                recv + ".map("@ + a0 + ")"@
            } else if method@ == "filter"@ && args@.len() == 1 {
                recv + ".filter("@ + a0 + ")"@
            } else if method@ == "reduce"@ && args@.len() == 2 {
                recv + ".reduce("@ + a1 + ", "@ + a0 + ")"@
            } else {
                let a = h_exprs_text(args@, args@.len() as int, screen, sv);
                match string_method_text(recv, method@, a, true) {
                    Some(t) => t,
                    None => recv + "."@ + method@ + "("@ + join_text(a, ", "@) + ")"@,
                }
            }
        },
        _ => Seq::empty(),
    }
}

fn emit_h_exprs(es: &Vec<Expr>, screen: &str, sv: &Parts) -> (r: Parts)
    ensures
        r@ == h_exprs_text(es@, es@.len() as int, screen@, sv@),
    decreases es, 0int,
{
    let mut out = Parts::new();
    let mut i: usize = 0;
    while i < es.len()
        invariant
            i <= es.len(),
            out@ == h_exprs_text(es@, i as int, screen@, sv@),
        decreases es.len() - i,
    {
        let t = emit_h_expr(&es[i], screen, sv);
        out.push(t);
        i = i + 1;
    }
    out
}

fn emit_h_fields(style: FieldStyle, fs: &Vec<(String, Expr)>, screen: &str, sv: &Parts) -> (r:
    Parts)
    ensures
        r@ == h_fields_text(style, fs@, fs@.len() as int, screen@, sv@),
    decreases fs, 0int,
{
    let mut out = Parts::new();
    let mut i: usize = 0;
    while i < fs.len()
        invariant
            i <= fs.len(),
            out@ == h_fields_text(style, fs@, i as int, screen@, sv@),
        decreases fs.len() - i,
    {
        let t = emit_h_expr(&fs[i].1, screen, sv);
        out.push(emit_field(style, &fs[i].0, &t));
        i = i + 1;
    }
    out
}

fn emit_h_arg(args: &Vec<Expr>, i: usize, screen: &str, sv: &Parts, default: &str) -> (r: String)
    ensures
        r@ == h_arg_text(args@, i as int, screen@, sv@, default@),
    decreases args, 0int,
{
    if i < args.len() {
        emit_h_expr(&args[i], screen, sv)
    } else {
        default.to_owned()
    }
}

/// Prints an expression of handler code.
pub fn emit_h_expr(e: &Expr, screen: &str, sv: &Parts) -> (r: String)
    ensures
        r@ == h_expr_text(*e, screen@, sv@),
    decreases e, 1int,
{
    match e {
        Expr::Ident(v) => emit_cell(v, screen, sv),
        Expr::Int(n) => i64_text(*n),
        Expr::Float(f) => float_lit(f),
        Expr::Str(s) => quoted(s),
        Expr::Bool(b) => if *b {
            "true".to_owned()
        } else {
            "false".to_owned()
        },
        Expr::Field { base, field } => {
            if let Expr::Ident(name) = &**base {
                if starts_upper(name) {
                    return quoted(field);
                }
            }
            let b = emit_h_expr(base, screen, sv);
            cat3(&b, ".", field)
        },
        Expr::Call { .. } => emit_h_call(e, screen, sv),
        Expr::Unary { op, expr } => {
            let x = emit_h_expr(expr, screen, sv);
            cat2(unop_sym(*op), &x)
        },
        Expr::Binary { op, left, right } => {
            let l = emit_h_expr(left, screen, sv);
            let r = emit_h_expr(right, screen, sv);
            cat7("(", &l, " ", binop_sym(*op), " ", &r, ")")
        },
        Expr::Declassify(inner) => emit_h_expr(inner, screen, sv),
        Expr::Raw(inner) => emit_h_expr(inner, screen, sv),
        Expr::Await(inner) => {
            let x = emit_h_expr(inner, screen, sv);
            cat2("await ", &x)
        },
        Expr::MethodCall { .. } => emit_h_method(e, screen, sv),
        Expr::NoneLit => "null".to_owned(),
        Expr::ListLit(items) => {
            let body = emit_h_exprs(items, screen, sv).join(", ");
            cat3("[", &body, "]")
        },
        Expr::Ternary { cond, yes, otherwise } => {
            let c = emit_h_expr(cond, screen, sv);
            let y = emit_h_expr(yes, screen, sv);
            let o = emit_h_expr(otherwise, screen, sv);
            cat7("(", &c, " ? ", &y, " : ", &o, ")")
        },
        Expr::Record { fields, .. } => {
            let body = emit_h_fields(FieldStyle::Object, fields, screen, sv).join(", ");
            cat3("{ ", &body, " }")
        },
        Expr::Range { start, end } => {
            let s = emit_h_expr(start, screen, sv);
            let n = emit_h_expr(end, screen, sv);
            cat7("Array.from({length: (", &n, ") - (", &s, ")}, (_, __i) => __i + (", &s, "))")
        },
        Expr::Closure { params, body } => {
            let ps = names_parts(params).join(", ");
            let b = emit_h_expr(body, screen, sv);
            cat4("(", &ps, ") => ", &b)
        },
        Expr::Index { base, index } => {
            let b = emit_h_expr(base, screen, sv);
            let i = emit_h_expr(index, screen, sv);
            emit_at(&b, &i, true)
        },
    }
}

fn emit_h_call(e: &Expr, screen: &str, sv: &Parts) -> (r: String)
    ensures
        r@ == h_call_text(*e, screen@, sv@),
    decreases e, 0int,
{
    match e {
        Expr::Call { callee, args } => {
            if same(callee, "now") && args.len() == 0 {
                return "Date.now()".to_owned();
            }
            if same(callee, "decimal") {
                return emit_h_arg(args, 0, screen, sv, "\"\"");
            }
            let a0 = emit_h_arg(args, 0, screen, sv, "");
            let a1 = emit_h_arg(args, 1, screen, sv, "");
            if let Some(op) = strip_prefix(callee, "__dec_") {
                return cat7("__dec.", op, "(", &a0, ", ", &a1, ")");
            }
            if same(callee, "__list_contains") {
                return cat4(
                    &a0,
                    ".some((__e) => JSON.stringify(__e) === JSON.stringify(",
                    &a1,
                    "))",
                );
            }
            if same(callee, "__str_concat") {
                return cat5("(\"\" + (", &a0, ") + (", &a1, "))");
            }
            if same(callee, "navigate") {
                if args.len() > 0 {
                    if let Expr::Record { name, fields } = &args[0] {
                        let ps = emit_h_fields(FieldStyle::Route, fields, screen, sv).join(", ");
                        return cat5("__navigateTo(", &quoted(name), ", { ", &ps, " })");
                    }
                }
                return cat3("__navigate(", &nav_target_js(args), ")");
            }
            if same(callee, "toggle_theme") {
                return "__toggleTheme()".to_owned();
            }
            let a = emit_h_exprs(args, screen, sv);
            match emit_math(callee, &a, true) {
                Some(t) => t,
                None => cat4(callee, "(", &a.join(", "), ")"),
            }
        },
        _ => String::new(),
    }
}

fn emit_h_method(e: &Expr, screen: &str, sv: &Parts) -> (r: String)
    ensures
        r@ == h_method_text(*e, screen@, sv@),
    decreases e, 0int,
{
    match e {
        Expr::MethodCall { receiver, method, args } => {
            let recv = emit_h_expr(receiver, screen, sv);
            let a0 = emit_h_arg(args, 0, screen, sv, "");
            let a1 = emit_h_arg(args, 1, screen, sv, "");
            if same(method, "or") && args.len() == 1 {
                return cat5("(", &recv, " ?? ", &a0, ")");
            }
            if same(method, "map") && args.len() == 1 {
                return cat4(&recv, ".map(", &a0, ")");
            }
            if same(method, "filter") && args.len() == 1 {
                return cat4(&recv, ".filter(", &a0, ")");
            }
            if same(method, "reduce") && args.len() == 2 {
                return cat6(&recv, ".reduce(", &a1, ", ", &a0, ")");
            }
            let a = emit_h_exprs(args, screen, sv);
            match emit_string_method(&recv, method, &a, true) {
                Some(t) => t,
                None => cat6(&recv, ".", method, "(", &a.join(", "), ")"),
            }
        },
        _ => String::new(),
    }
}

/// The text of a statement in handler code.
pub open spec fn h_stmt_text(s: Stmt, screen: Seq<char>, sv: Seq<Seq<char>>) -> Seq<char>
    decreases s, 0int,
{
    match s {
        Stmt::Assign { name, value } => cell_text(name@, screen, sv) + " = "@ + h_expr_text(
            value,
            screen,
            sv,
        ) + ";"@,
        Stmt::Let { name, value, .. } => "let "@ + name@ + " = "@ + h_expr_text(value, screen, sv)
            + ";"@,
        Stmt::Return(e) => "return "@ + h_expr_text(e, screen, sv) + ";"@,
        Stmt::Expr(e) => h_expr_text(e, screen, sv) + ";"@,
        Stmt::Try { body, handler } => "try { "@ + h_block_text(body@, " "@, screen, sv)
            + " } catch (_e) { "@ + h_block_text(handler@, " "@, screen, sv) + " }"@,
        Stmt::If { cond, then_body, else_body } => {
            let head = "if ("@ + h_expr_text(cond, screen, sv) + ") { "@ + h_block_text(
                then_body@,
                " "@,
                screen,
                sv,
            );
            if else_body@.len() == 0 {
                head + " }"@
            } else {
                head + " } else { "@ + h_block_text(else_body@, " "@, screen, sv) + " }"@
            }
        },
        Stmt::For { var, iter, body } => {
            let b = h_block_text(body@, " "@, screen, sv);
            if iter is Range {
                let from = h_expr_text(*iter->Range_start, screen, sv);
                let to = h_expr_text(*iter->Range_end, screen, sv);
                "for (let "@ + var@ + " = "@ + from + "; "@ + var@ + " < "@ + to + "; "@ + var@
                    + "++) { "@ + b + " }"@
            } else {
                "for (const "@ + var@ + " of "@ + h_expr_text(iter, screen, sv) + ") { "@ + b
                    + " }"@
            }
        },
        Stmt::While { cond, body } => "while ("@ + h_expr_text(cond, screen, sv) + ") { "@
            + h_block_text(body@, " "@, screen, sv) + " }"@,
        Stmt::Break => "break;"@,
        Stmt::Continue => "continue;"@,
        Stmt::Match { scrutinee, arms } => "switch ("@ + h_expr_text(scrutinee, screen, sv)
            + ") { "@ + h_arms_text(arms@, arms@.len() as int, screen, sv) + "}"@,
        Stmt::Transaction(_) => Seq::empty(),
    }
}

/// The texts of the first `n` statements.
pub open spec fn h_stmts_text(ss: Seq<Stmt>, n: int, screen: Seq<char>, sv: Seq<Seq<char>>) -> Seq<
    Seq<char>,
>
    decreases ss, n,
{
    if n <= 0 || n > ss.len() {
        Seq::empty()
    } else {
        h_stmts_text(ss, n - 1, screen, sv).push(h_stmt_text(ss[n - 1], screen, sv))
    }
}

/// A block's statements, with a separator between them.
pub open spec fn h_block_text(
    ss: Seq<Stmt>,
    sep: Seq<char>,
    screen: Seq<char>,
    sv: Seq<Seq<char>>,
) -> Seq<char>
    decreases ss, ss.len() + 1,
{
    join_text(h_stmts_text(ss, ss.len() as int, screen, sv), sep)
}

/// The first `n` arms of a `match`.
pub open spec fn h_arms_text(
    arms: Seq<MatchArm>,
    n: int,
    screen: Seq<char>,
    sv: Seq<Seq<char>>,
) -> Seq<char>
    decreases arms, n,
{
    if n <= 0 || n > arms.len() {
        Seq::empty()
    } else {
        h_arms_text(arms, n - 1, screen, sv) + arm_head_text(arms[n - 1].pattern, true)
            + h_block_text(arms[n - 1].body@, " "@, screen, sv) + " break; } "@
    }
}

fn emit_h_arms(arms: &Vec<MatchArm>, screen: &str, sv: &Parts) -> (r: String)
    ensures
        r@ == h_arms_text(arms@, arms@.len() as int, screen@, sv@),
    decreases arms, 0int,
{
    let mut out: String = String::new();
    let mut i: usize = 0;
    while i < arms.len()
        invariant
            i <= arms.len(),
            out@ == h_arms_text(arms@, i as int, screen@, sv@),
        decreases arms.len() - i,
    {
        let b = emit_h_block(&arms[i].body, " ", screen, sv);
        let head = arm_head(&arms[i].pattern, true);
        out = cat4(&out, &head, &b, " break; } ");
        i = i + 1;
    }
    out
}

/// Prints a block of handler code, with a separator between its statements.
pub fn emit_h_block(ss: &Vec<Stmt>, sep: &str, screen: &str, sv: &Parts) -> (r: String)
    ensures
        r@ == h_block_text(ss@, sep@, screen@, sv@),
    decreases ss, 0int,
{
    let mut out = Parts::new();
    let mut i: usize = 0;
    while i < ss.len()
        invariant
            i <= ss.len(),
            out@ == h_stmts_text(ss@, i as int, screen@, sv@),
        decreases ss.len() - i,
    {
        let t = emit_h_stmt(&ss[i], screen, sv);
        out.push(t);
        i = i + 1;
    }
    out.join(sep)
}

/// Prints a statement of handler code.
pub fn emit_h_stmt(s: &Stmt, screen: &str, sv: &Parts) -> (r: String)
    ensures
        r@ == h_stmt_text(*s, screen@, sv@),
    decreases s, 0int,
{
    match s {
        Stmt::Assign { name, value } => cat4(
            &emit_cell(name, screen, sv),
            " = ",
            &emit_h_expr(value, screen, sv),
            ";",
        ),
        Stmt::Let { name, value, .. } => cat5(
            "let ",
            name,
            " = ",
            &emit_h_expr(value, screen, sv),
            ";",
        ),
        Stmt::Return(e) => cat3("return ", &emit_h_expr(e, screen, sv), ";"),
        Stmt::Expr(e) => cat2(&emit_h_expr(e, screen, sv), ";"),
        Stmt::Try { body, handler } => {
            let b = emit_h_block(body, " ", screen, sv);
            let h = emit_h_block(handler, " ", screen, sv);
            cat5("try { ", &b, " } catch (_e) { ", &h, " }")
        },
        Stmt::If { cond, then_body, else_body } => {
            let t = emit_h_block(then_body, " ", screen, sv);
            let head = cat4("if (", &emit_h_expr(cond, screen, sv), ") { ", &t);
            if else_body.len() == 0 {
                cat2(&head, " }")
            } else {
                let o = emit_h_block(else_body, " ", screen, sv);
                cat4(&head, " } else { ", &o, " }")
            }
        },
        Stmt::For { var, iter, body } => {
            let b = emit_h_block(body, " ", screen, sv);
            if let Expr::Range { start, end } = iter {
                let from = emit_h_expr(start, screen, sv);
                let to = emit_h_expr(end, screen, sv);
                let head = cat9("for (let ", var, " = ", &from, "; ", var, " < ", &to, "; ");
                cat5(&head, var, "++) { ", &b, " }")
            } else {
                cat7(
                    "for (const ",
                    var,
                    " of ",
                    &emit_h_expr(iter, screen, sv),
                    ") { ",
                    &b,
                    " }",
                )
            }
        },
        Stmt::While { cond, body } => {
            let b = emit_h_block(body, " ", screen, sv);
            cat5("while (", &emit_h_expr(cond, screen, sv), ") { ", &b, " }")
        },
        Stmt::Break => "break;".to_owned(),
        Stmt::Continue => "continue;".to_owned(),
        Stmt::Match { scrutinee, arms } => {
            let a = emit_h_arms(arms, screen, sv);
            cat5("switch (", &emit_h_expr(scrutinee, screen, sv), ") { ", &a, "}")
        },
        Stmt::Transaction(_) => String::new(),
    }
}

} // verus!
