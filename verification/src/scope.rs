//! Scope and async discipline: every name is bound, and a server function is awaited.
use vstd::prelude::*;
use vstd::string::*;

use crate::ast::{EnvModifier, Expr, XeresProgram};
use crate::diagnostics::{clean, DiagView, Report};
use crate::messages;
use crate::resolve::{closure_locals, closure_scope, LocalView, Locals};
use crate::table::{
    collection_of, enumeration_of, function_of, get_collection, get_enumeration, get_function,
};
use crate::text::same;

verus! {

/// Whether a name is in scope: bound locally, a function, or a synced collection.
pub open spec fn in_scope(v: Seq<char>, ls: Map<Seq<char>, LocalView>, p: XeresProgram) -> bool {
    ls.dom().contains(v) || function_of(p, v) is Some || collection_of(p, v) is Some
}

/// R8: the names in an expression that are not in scope on a screen. An enum's name and the target
/// of `navigate` are no values.
pub open spec fn bindings_diags(
    e: Expr,
    ls: Map<Seq<char>, LocalView>,
    s: Seq<char>,
    line: nat,
    p: XeresProgram,
) -> Seq<DiagView>
    decreases e, 0int,
{
    match e {
        Expr::Ident(v) => if in_scope(v@, ls, p) {
            clean()
        } else {
            messages::not_in_scope_diag(v@, s, line)
        },
        Expr::Field { base, .. } => if *base is Ident && enumeration_of(p, base->Ident_0@) is Some {
            clean()
        } else {
            bindings_diags(*base, ls, s, line, p)
        },
        Expr::Call { callee, args } => if callee@ == "navigate"@ {
            clean()
        } else {
            bindings_all(args@, args@.len() as int, ls, s, line, p)
        },
        Expr::Unary { expr, .. } => bindings_diags(*expr, ls, s, line, p),
        Expr::Binary { left, right, .. } => bindings_diags(*left, ls, s, line, p) + bindings_diags(
            *right,
            ls,
            s,
            line,
            p,
        ),
        Expr::Declassify(inner) => bindings_diags(*inner, ls, s, line, p),
        Expr::Raw(inner) => bindings_diags(*inner, ls, s, line, p),
        Expr::Await(inner) => bindings_diags(*inner, ls, s, line, p),
        Expr::MethodCall { receiver, args, .. } => bindings_diags(*receiver, ls, s, line, p)
            + bindings_all(args@, args@.len() as int, ls, s, line, p),
        Expr::Record { fields, .. } => bindings_fields(
            fields@,
            fields@.len() as int,
            ls,
            s,
            line,
            p,
        ),
        Expr::ListLit(items) => bindings_all(items@, items@.len() as int, ls, s, line, p),
        Expr::Ternary { cond, yes, otherwise } => bindings_diags(*cond, ls, s, line, p)
            + bindings_diags(*yes, ls, s, line, p) + bindings_diags(*otherwise, ls, s, line, p),
        Expr::Range { start, end } => bindings_diags(*start, ls, s, line, p) + bindings_diags(
            *end,
            ls,
            s,
            line,
            p,
        ),
        Expr::Index { base, index } => bindings_diags(*base, ls, s, line, p) + bindings_diags(
            *index,
            ls,
            s,
            line,
            p,
        ),
        Expr::Closure { params, body } => bindings_diags(
            *body,
            closure_scope(ls, params@, params@.len() as int, ""@, None, None),
            s,
            line,
            p,
        ),
        Expr::Int(_) | Expr::Float(_) | Expr::Str(_) | Expr::Bool(_) | Expr::NoneLit => clean(),
    }
}

/// R8 on the first `n` expressions.
pub open spec fn bindings_all(
    es: Seq<Expr>,
    n: int,
    ls: Map<Seq<char>, LocalView>,
    s: Seq<char>,
    line: nat,
    p: XeresProgram,
) -> Seq<DiagView>
    decreases es, n,
{
    if n <= 0 || n > es.len() {
        clean()
    } else {
        bindings_all(es, n - 1, ls, s, line, p) + bindings_diags(es[n - 1], ls, s, line, p)
    }
}

/// R8 on the values of the first `n` fields.
pub open spec fn bindings_fields(
    fs: Seq<(String, Expr)>,
    n: int,
    ls: Map<Seq<char>, LocalView>,
    s: Seq<char>,
    line: nat,
    p: XeresProgram,
) -> Seq<DiagView>
    decreases fs, n,
{
    if n <= 0 || n > fs.len() {
        clean()
    } else {
        bindings_fields(fs, n - 1, ls, s, line, p) + bindings_diags(fs[n - 1].1, ls, s, line, p)
    }
}

fn check_bindings_all(es: &Vec<Expr>, ls: &Locals, s: &str, line: usize, p: &XeresProgram) -> (r:
    Report)
    ensures
        r@ == bindings_all(es@, es@.len() as int, ls@, s@, line as nat, *p),
    decreases es, 0int,
{
    let mut out = Report::new();
    let mut i: usize = 0;
    while i < es.len()
        invariant
            i <= es.len(),
            out@ == bindings_all(es@, i as int, ls@, s@, line as nat, *p),
        decreases es.len() - i,
    {
        let d = check_bindings(&es[i], ls, s, line, p);
        out.append(d);
        i = i + 1;
    }
    out
}

fn check_bindings_fields(
    fs: &Vec<(String, Expr)>,
    ls: &Locals,
    s: &str,
    line: usize,
    p: &XeresProgram,
) -> (r: Report)
    ensures
        r@ == bindings_fields(fs@, fs@.len() as int, ls@, s@, line as nat, *p),
    decreases fs, 0int,
{
    let mut out = Report::new();
    let mut i: usize = 0;
    while i < fs.len()
        invariant
            i <= fs.len(),
            out@ == bindings_fields(fs@, i as int, ls@, s@, line as nat, *p),
        decreases fs.len() - i,
    {
        let d = check_bindings(&fs[i].1, ls, s, line, p);
        out.append(d);
        i = i + 1;
    }
    out
}

/// R8: checks that the names in an expression are in scope on a screen.
pub fn check_bindings(e: &Expr, ls: &Locals, s: &str, line: usize, p: &XeresProgram) -> (r: Report)
    ensures
        r@ == bindings_diags(*e, ls@, s@, line as nat, *p),
    decreases e, 0int,
{
    match e {
        Expr::Ident(v) => if ls.has(v) || get_function(p, v).is_some() || get_collection(
            p,
            v,
        ).is_some() {
            Report::new()
        } else {
            messages::not_in_scope(v, s, line)
        },
        Expr::Field { base, .. } => {
            if let Expr::Ident(name) = &**base {
                if get_enumeration(p, name).is_some() {
                    return Report::new();
                }
            }
            check_bindings(base, ls, s, line, p)
        },
        Expr::Call { callee, args } => if same(callee, "navigate") {
            Report::new()
        } else {
            check_bindings_all(args, ls, s, line, p)
        },
        Expr::Unary { expr, .. } => check_bindings(expr, ls, s, line, p),
        Expr::Binary { left, right, .. } => {
            let mut out = check_bindings(left, ls, s, line, p);
            let d = check_bindings(right, ls, s, line, p);
            out.append(d);
            out
        },
        Expr::Declassify(inner) => check_bindings(inner, ls, s, line, p),
        Expr::Raw(inner) => check_bindings(inner, ls, s, line, p),
        Expr::Await(inner) => check_bindings(inner, ls, s, line, p),
        Expr::MethodCall { receiver, args, .. } => {
            let mut out = check_bindings(receiver, ls, s, line, p);
            let d = check_bindings_all(args, ls, s, line, p);
            out.append(d);
            out
        },
        Expr::Record { fields, .. } => check_bindings_fields(fields, ls, s, line, p),
        Expr::ListLit(items) => check_bindings_all(items, ls, s, line, p),
        Expr::Ternary { cond, yes, otherwise } => {
            let mut out = check_bindings(cond, ls, s, line, p);
            let y = check_bindings(yes, ls, s, line, p);
            out.append(y);
            let o = check_bindings(otherwise, ls, s, line, p);
            out.append(o);
            out
        },
        Expr::Range { start, end } => {
            let mut out = check_bindings(start, ls, s, line, p);
            let d = check_bindings(end, ls, s, line, p);
            out.append(d);
            out
        },
        Expr::Index { base, index } => {
            let mut out = check_bindings(base, ls, s, line, p);
            let d = check_bindings(index, ls, s, line, p);
            out.append(d);
            out
        },
        Expr::Closure { params, body } => {
            let inner = closure_locals(ls, params, "", &None, &None);
            check_bindings(body, &inner, s, line, p)
        },
        Expr::Int(_) | Expr::Float(_) | Expr::Str(_) | Expr::Bool(_) | Expr::NoneLit => {
            Report::new()
        },
    }
}

/// Whether a name is a server function's.
pub open spec fn is_server_fn(c: Seq<char>, p: XeresProgram) -> bool {
    function_of(p, c) matches Some(f) && f.env == EnvModifier::Server
}

/// R4: in the browser, a call of a server function is the direct operand of `await`; elsewhere there
/// is no `await`.
pub open spec fn await_diags(
    e: Expr,
    awaited: bool,
    browser: bool,
    name: Seq<char>,
    line: nat,
    p: XeresProgram,
) -> Seq<DiagView>
    decreases e, 0int,
{
    match e {
        Expr::Await(inner) => (if browser {
            clean()
        } else {
            messages::await_context_diag(name, line)
        }) + await_diags(*inner, true, browser, name, line, p),
        Expr::Call { callee, args } => (if browser && is_server_fn(callee@, p) && !awaited {
            messages::await_missing_diag(callee@, line)
        } else {
            clean()
        }) + await_all(args@, args@.len() as int, browser, name, line, p),
        Expr::Field { base, .. } => await_diags(*base, false, browser, name, line, p),
        Expr::Unary { expr, .. } => await_diags(*expr, false, browser, name, line, p),
        Expr::Binary { left, right, .. } => await_diags(*left, false, browser, name, line, p)
            + await_diags(*right, false, browser, name, line, p),
        Expr::Declassify(inner) => await_diags(*inner, false, browser, name, line, p),
        Expr::Raw(inner) => await_diags(*inner, false, browser, name, line, p),
        Expr::MethodCall { receiver, args, .. } => await_diags(
            *receiver,
            false,
            browser,
            name,
            line,
            p,
        ) + await_all(args@, args@.len() as int, browser, name, line, p),
        Expr::Record { fields, .. } => await_fields(
            fields@,
            fields@.len() as int,
            browser,
            name,
            line,
            p,
        ),
        Expr::ListLit(items) => await_all(items@, items@.len() as int, browser, name, line, p),
        Expr::Ternary { cond, yes, otherwise } => await_diags(*cond, false, browser, name, line, p)
            + await_diags(*yes, false, browser, name, line, p) + await_diags(
            *otherwise,
            false,
            browser,
            name,
            line,
            p,
        ),
        Expr::Range { start, end } => await_diags(*start, false, browser, name, line, p)
            + await_diags(*end, false, browser, name, line, p),
        Expr::Index { base, index } => await_diags(*base, false, browser, name, line, p)
            + await_diags(*index, false, browser, name, line, p),
        Expr::Closure { body, .. } => await_diags(*body, false, browser, name, line, p),
        Expr::Int(_)
        | Expr::Float(_)
        | Expr::Str(_)
        | Expr::Bool(_)
        | Expr::Ident(_)
        | Expr::NoneLit => clean(),
    }
}

/// R4 on the first `n` expressions.
pub open spec fn await_all(
    es: Seq<Expr>,
    n: int,
    browser: bool,
    name: Seq<char>,
    line: nat,
    p: XeresProgram,
) -> Seq<DiagView>
    decreases es, n,
{
    if n <= 0 || n > es.len() {
        clean()
    } else {
        await_all(es, n - 1, browser, name, line, p) + await_diags(
            es[n - 1],
            false,
            browser,
            name,
            line,
            p,
        )
    }
}

/// R4 on the values of the first `n` fields.
pub open spec fn await_fields(
    fs: Seq<(String, Expr)>,
    n: int,
    browser: bool,
    name: Seq<char>,
    line: nat,
    p: XeresProgram,
) -> Seq<DiagView>
    decreases fs, n,
{
    if n <= 0 || n > fs.len() {
        clean()
    } else {
        await_fields(fs, n - 1, browser, name, line, p) + await_diags(
            fs[n - 1].1,
            false,
            browser,
            name,
            line,
            p,
        )
    }
}

fn check_await_all(es: &Vec<Expr>, browser: bool, name: &str, line: usize, p: &XeresProgram) -> (r:
    Report)
    ensures
        r@ == await_all(es@, es@.len() as int, browser, name@, line as nat, *p),
    decreases es, 0int,
{
    let mut out = Report::new();
    let mut i: usize = 0;
    while i < es.len()
        invariant
            i <= es.len(),
            out@ == await_all(es@, i as int, browser, name@, line as nat, *p),
        decreases es.len() - i,
    {
        let d = check_await(&es[i], false, browser, name, line, p);
        out.append(d);
        i = i + 1;
    }
    out
}

fn check_await_fields(
    fs: &Vec<(String, Expr)>,
    browser: bool,
    name: &str,
    line: usize,
    p: &XeresProgram,
) -> (r: Report)
    ensures
        r@ == await_fields(fs@, fs@.len() as int, browser, name@, line as nat, *p),
    decreases fs, 0int,
{
    let mut out = Report::new();
    let mut i: usize = 0;
    while i < fs.len()
        invariant
            i <= fs.len(),
            out@ == await_fields(fs@, i as int, browser, name@, line as nat, *p),
        decreases fs.len() - i,
    {
        let d = check_await(&fs[i].1, false, browser, name, line, p);
        out.append(d);
        i = i + 1;
    }
    out
}

fn server_fn(c: &str, p: &XeresProgram) -> (r: bool)
    ensures
        r == is_server_fn(c@, *p),
{
    match get_function(p, c) {
        Some(f) => f.env == EnvModifier::Server,
        None => false,
    }
}

/// R4: checks the use of `await` in an expression.
pub fn check_await(
    e: &Expr,
    awaited: bool,
    browser: bool,
    name: &str,
    line: usize,
    p: &XeresProgram,
) -> (r: Report)
    ensures
        r@ == await_diags(*e, awaited, browser, name@, line as nat, *p),
    decreases e, 0int,
{
    match e {
        Expr::Await(inner) => {
            let mut out = if browser {
                Report::new()
            } else {
                messages::await_context(name, line)
            };
            let d = check_await(inner, true, browser, name, line, p);
            out.append(d);
            out
        },
        Expr::Call { callee, args } => {
            let mut out = if browser && server_fn(callee, p) && !awaited {
                messages::await_missing(callee, line)
            } else {
                Report::new()
            };
            let d = check_await_all(args, browser, name, line, p);
            out.append(d);
            out
        },
        Expr::Field { base, .. } => check_await(base, false, browser, name, line, p),
        Expr::Unary { expr, .. } => check_await(expr, false, browser, name, line, p),
        Expr::Binary { left, right, .. } => {
            let mut out = check_await(left, false, browser, name, line, p);
            let d = check_await(right, false, browser, name, line, p);
            out.append(d);
            out
        },
        Expr::Declassify(inner) => check_await(inner, false, browser, name, line, p),
        Expr::Raw(inner) => check_await(inner, false, browser, name, line, p),
        Expr::MethodCall { receiver, args, .. } => {
            let mut out = check_await(receiver, false, browser, name, line, p);
            let d = check_await_all(args, browser, name, line, p);
            out.append(d);
            out
        },
        Expr::Record { fields, .. } => check_await_fields(fields, browser, name, line, p),
        Expr::ListLit(items) => check_await_all(items, browser, name, line, p),
        Expr::Ternary { cond, yes, otherwise } => {
            let mut out = check_await(cond, false, browser, name, line, p);
            let y = check_await(yes, false, browser, name, line, p);
            out.append(y);
            let o = check_await(otherwise, false, browser, name, line, p);
            out.append(o);
            out
        },
        Expr::Range { start, end } => {
            let mut out = check_await(start, false, browser, name, line, p);
            let d = check_await(end, false, browser, name, line, p);
            out.append(d);
            out
        },
        Expr::Index { base, index } => {
            let mut out = check_await(base, false, browser, name, line, p);
            let d = check_await(index, false, browser, name, line, p);
            out.append(d);
            out
        },
        Expr::Closure { body, .. } => check_await(body, false, browser, name, line, p),
        Expr::Int(_)
        | Expr::Float(_)
        | Expr::Str(_)
        | Expr::Bool(_)
        | Expr::Ident(_)
        | Expr::NoneLit => Report::new(),
    }
}

} // verus!
