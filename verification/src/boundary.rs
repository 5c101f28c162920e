//! What the analysis keeps of the boundary between the tiers: what an accepted program cannot do.
use vstd::prelude::*;

use crate::analysis::{
    apis_diags, auth_fn_diags, auth_fns_diags, bodies_diags, leak_diags, leaks_diags, program_diags,
    route_diags, route_scope, route_site, routes_diags, screens_diags,
};
use crate::ast::{
    ApiNode, ApiRoute, EnvModifier, Expr, FunctionNode, Handler, MatchArm, ScreenNode, StateNode, Stmt, ViewNode, XeresProgram,
};
use crate::diagnostics::{by_line, law_by_line, DiagView};
use crate::flow::{
    arms_diags, flow_diags, function_diags, function_site, handler_arms_diags, handler_diags,
    handler_stmt_diags, let_scope, screen_expr_diags, stmt_diags, SiteView,
};
use crate::resolve::{closure_scope, elem_of, element_type, type_of, typed, LocalView};
use crate::rules::{args_diags, call_diags, capability, expr_diags, exprs_diags, field_values_diags, method_diags};
use crate::table::{endpoint_of, model_shaped};
use crate::taint::{law_leaking_function_is_marked, leaks, param_scope, secret_returns};
use crate::uses::is_ident_text;
use crate::views::{
    arg_values_diags, cell_scope, load_site, screen_diags, view_diags, views_diags,
};

verus! {

/// Whether a program is accepted: no rule reports anything.
pub open spec fn accepted(p: XeresProgram) -> bool {
    program_diags(p).len() == 0
}

/// Whether one of the findings is this rule's, on this line.
pub open spec fn reports(list: Seq<DiagView>, rule: Seq<char>, line: nat) -> bool {
    exists|i: int| 0 <= i < list.len() && (#[trigger] list[i]).rule == rule && list[i].line == line
}

proof fn lemma_leaks_part(
    list: Seq<FunctionNode>,
    n: int,
    rs: Map<Seq<char>, bool>,
    p: XeresProgram,
    i: int,
    d: DiagView,
)
    requires
        0 <= i < n <= list.len(),
        leak_diags(list[i], rs, p).contains(d),
    ensures
        leaks_diags(list, n, rs, p).contains(d),
    decreases n,
{
    let before = leaks_diags(list, n - 1, rs, p);
    let last = leak_diags(list[n - 1], rs, p);
    if i == n - 1 {
        let k = choose|k: int| 0 <= k < last.len() && last[k] == d;
        assert((before + last)[before.len() + k] == d);
    } else {
        lemma_leaks_part(list, n - 1, rs, p, i, d);
        let k = choose|k: int| 0 <= k < before.len() && before[k] == d;
        assert((before + last)[k] == d);
    }
}

proof fn lemma_tail_contains(a: Seq<DiagView>, b: Seq<DiagView>, d: DiagView)
    requires
        b.contains(d),
    ensures
        (a + b).contains(d),
{
    let k = choose|k: int| 0 <= k < b.len() && b[k] == d;
    assert((a + b)[a.len() + k] == d);
}

/// A function that returns secret-derived data is reported, unless it runs on the server and returns a
/// model, whose secret fields do not cross the wire.
pub proof fn law_leak_is_reported(p: XeresProgram, i: int)
    requires
        0 <= i < p.functions@.len(),
        leaks(p.functions@[i], p, secret_returns(p)),
        p.functions@[i].env != EnvModifier::Server || !(p.functions@[i].return_type matches Some(t)
            && model_shaped(t@, p)),
    ensures
        reports(
            by_line(program_diags(p), program_diags(p).len() as int),
            "R5 secret-leak-via-return"@,
            p.functions@[i].line as nat,
        ),
{
    let f = p.functions@[i];
    let rs = secret_returns(p);
    law_leaking_function_is_marked(p, i);
    let part = leak_diags(f, rs, p);
    let d = part[0];
    assert(part.contains(d));
    let n = p.functions@.len() as int;
    lemma_leaks_part(p.functions@, n, rs, p, i, d);
    let all = program_diags(p);
    lemma_tail_contains(all.take(all.len() - leaks_diags(p.functions@, n, rs, p).len()), leaks_diags(p.functions@, n, rs, p), d);
    assert(all =~= all.take(all.len() - leaks_diags(p.functions@, n, rs, p).len()) + leaks_diags(p.functions@, n, rs, p));
    let sorted = by_line(all, all.len() as int);
    law_by_line(all, all.len() as int);
    assert(all.take(all.len() as int) =~= all);
    all.to_multiset_ensures();
    sorted.to_multiset_ensures();
    assert(all.to_multiset().count(d) > 0);
    assert(sorted.to_multiset().count(d) > 0);
    assert(sorted.contains(d));
}

/// An accepted program lets secret-derived data out of a function only on the server, and there only as
/// a model.
pub proof fn law_accepted_program_contains_its_secrets(p: XeresProgram, i: int)
    requires
        accepted(p),
        0 <= i < p.functions@.len(),
        leaks(p.functions@[i], p, secret_returns(p)),
    ensures
        p.functions@[i].env == EnvModifier::Server,
        p.functions@[i].return_type matches Some(t) && model_shaped(t@, p),
{
    if p.functions@[i].env != EnvModifier::Server || !(p.functions@[i].return_type matches Some(t)
        && model_shaped(t@, p)) {
        law_leak_is_reported(p, i);
        law_by_line(program_diags(p), 0);
        assert(by_line(program_diags(p), 0).len() == 0);
    }
}

proof fn lemma_bodies_clean(list: Seq<FunctionNode>, n: int, p: XeresProgram, i: int)
    requires
        0 <= i < n <= list.len(),
        bodies_diags(list, n, p).len() == 0,
    ensures
        function_diags(list[i], p).len() == 0,
    decreases n,
{
    if i < n - 1 {
        lemma_bodies_clean(list, n - 1, p, i);
    }
}

proof fn lemma_auth_clean(list: Seq<FunctionNode>, n: int, i: int)
    requires
        0 <= i < n <= list.len(),
        auth_fns_diags(list, n).len() == 0,
    ensures
        auth_fn_diags(list[i]).len() == 0,
    decreases n,
{
    if i < n - 1 {
        lemma_auth_clean(list, n - 1, i);
    }
}

proof fn lemma_screens_clean(list: Seq<ScreenNode>, n: int, p: XeresProgram, i: int)
    requires
        0 <= i < n <= list.len(),
        screens_diags(list, n, p).len() == 0,
    ensures
        screen_diags(list[i], p).len() == 0,
    decreases n,
{
    if i < n - 1 {
        lemma_screens_clean(list, n - 1, p, i);
    }
}

/// In an accepted program no function body breaks a rule.
pub proof fn law_accepted_functions_are_clean(p: XeresProgram, i: int)
    requires
        accepted(p),
        0 <= i < p.functions@.len(),
    ensures
        function_diags(p.functions@[i], p).len() == 0,
        auth_fn_diags(p.functions@[i]).len() == 0,
{
    lemma_bodies_clean(p.functions@, p.functions@.len() as int, p, i);
    lemma_auth_clean(p.functions@, p.functions@.len() as int, i);
}

/// In an accepted program no screen breaks a rule.
pub proof fn law_accepted_screens_are_clean(p: XeresProgram, i: int)
    requires
        accepted(p),
        0 <= i < p.screens@.len(),
    ensures
        screen_diags(p.screens@[i], p).len() == 0,
{
    lemma_screens_clean(p.screens@, p.screens@.len() as int, p, i);
}

/// Whether an expression reaches, by itself, for what it may not have: for the server's authority
/// (the database, the session, the log, an endpoint, password hashes, the release of secrets) where it
/// does not run on the server, or for the database or an endpoint with a text that is not a literal.
pub open spec fn strays(e: Expr, env: EnvModifier, p: XeresProgram) -> bool {
    match e {
        Expr::MethodCall { receiver, method, args } => {
            ||| capability(*receiver, p) && env != EnvModifier::Server
            ||| {
                &&& is_ident_text(*receiver, "db"@)
                &&& endpoint_of(p, "db"@) is None
                &&& method@ == "query_one"@ || method@ == "query"@ || method@ == "exec"@
                &&& args@.len() == 0 || !(args@[0] is Str)
            }
            ||| {
                &&& *receiver is Ident
                &&& endpoint_of(p, receiver->Ident_0@) is Some
                &&& method@ == "get"@ || method@ == "post"@
                &&& args@.len() == 0 || !(args@[0] is Str)
            }
        },
        Expr::Field { base, .. } => is_ident_text(*base, "session"@) && env != EnvModifier::Server,
        Expr::Call { callee, .. } => (callee@ == "hash"@ || callee@ == "verify"@) && env
            != EnvModifier::Server,
        Expr::Declassify(_) => env != EnvModifier::Server,
        _ => false,
    }
}

/// Whether an expression reaches so anywhere in it. The target of `navigate` is the name of a screen.
pub open spec fn holds_stray(e: Expr, env: EnvModifier, p: XeresProgram) -> bool
    decreases e,
{
    strays(e, env, p) || match e {
        Expr::Int(_)
        | Expr::Float(_)
        | Expr::Str(_)
        | Expr::Bool(_)
        | Expr::Ident(_)
        | Expr::NoneLit => false,
        Expr::Field { base, .. } => holds_stray(*base, env, p),
        Expr::Unary { expr, .. } => holds_stray(*expr, env, p),
        Expr::Binary { left, right, .. } => holds_stray(*left, env, p) || holds_stray(*right, env, p),
        Expr::Call { callee, args } => if callee@ == "navigate"@ {
            false
        } else if callee@ == "decimal"@ {
            args@.len() > 0 && holds_stray(args@[0], env, p)
        } else {
            exists|i: int| 0 <= i < args@.len() && holds_stray(#[trigger] args@[i], env, p)
        },
        Expr::MethodCall { receiver, args, .. } => {
            ||| holds_stray(*receiver, env, p)
            ||| exists|i: int| 0 <= i < args@.len() && holds_stray(#[trigger] args@[i], env, p)
        },
        Expr::Declassify(inner) => holds_stray(*inner, env, p),
        Expr::Raw(inner) => holds_stray(*inner, env, p),
        Expr::Await(inner) => holds_stray(*inner, env, p),
        Expr::Record { fields, .. } => exists|i: int|
            0 <= i < fields@.len() && holds_stray((#[trigger] fields@[i]).1, env, p),
        Expr::ListLit(items) => exists|i: int|
            0 <= i < items@.len() && holds_stray(#[trigger] items@[i], env, p),
        Expr::Ternary { cond, yes, otherwise } => holds_stray(*cond, env, p) || holds_stray(
            *yes,
            env,
            p,
        ) || holds_stray(*otherwise, env, p),
        Expr::Range { start, end } => holds_stray(*start, env, p) || holds_stray(*end, env, p),
        Expr::Index { base, index } => holds_stray(*base, env, p) || holds_stray(*index, env, p),
        Expr::Closure { body, .. } => holds_stray(*body, env, p),
    }
}

/// Whether a statement reaches so anywhere in it; a transaction is the server's too.
pub open spec fn stmt_strays(s: Stmt, env: EnvModifier, p: XeresProgram) -> bool
    decreases s,
{
    match s {
        Stmt::Let { value, .. } => holds_stray(value, env, p),
        Stmt::Assign { value, .. } => holds_stray(value, env, p),
        Stmt::Return(e) => holds_stray(e, env, p),
        Stmt::Expr(e) => holds_stray(e, env, p),
        Stmt::Try { body, handler } => {
            ||| exists|i: int| 0 <= i < body@.len() && stmt_strays(#[trigger] body@[i], env, p)
            ||| exists|i: int| 0 <= i < handler@.len() && stmt_strays(#[trigger] handler@[i], env, p)
        },
        Stmt::If { cond, then_body, else_body } => {
            ||| holds_stray(cond, env, p)
            ||| exists|i: int| 0 <= i < then_body@.len() && stmt_strays(#[trigger] then_body@[i], env, p)
            ||| exists|i: int| 0 <= i < else_body@.len() && stmt_strays(#[trigger] else_body@[i], env, p)
        },
        Stmt::For { iter, body, .. } => {
            ||| holds_stray(iter, env, p)
            ||| exists|i: int| 0 <= i < body@.len() && stmt_strays(#[trigger] body@[i], env, p)
        },
        Stmt::While { cond, body } => {
            ||| holds_stray(cond, env, p)
            ||| exists|i: int| 0 <= i < body@.len() && stmt_strays(#[trigger] body@[i], env, p)
        },
        Stmt::Match { scrutinee, arms } => {
            ||| holds_stray(scrutinee, env, p)
            ||| exists|i: int, j: int|
                0 <= i < arms@.len() && 0 <= j < arms@[i].body@.len() && stmt_strays(
                    #[trigger] arms@[i].body@[j],
                    env,
                    p,
                )
        },
        Stmt::Transaction(body) => env != EnvModifier::Server || exists|i: int|
            0 <= i < body@.len() && stmt_strays(#[trigger] body@[i], env, p),
        Stmt::Break | Stmt::Continue => false,
    }
}

pub(crate) proof fn lemma_exprs_part(
    es: Seq<Expr>,
    n: int,
    i: int,
    ls: Map<Seq<char>, LocalView>,
    env: EnvModifier,
    name: Seq<char>,
    line: nat,
    p: XeresProgram,
)
    requires
        0 <= i < n <= es.len(),
    ensures
        exprs_diags(es, n, ls, env, name, line, p).len() >= expr_diags(
            es[i],
            ls,
            env,
            name,
            line,
            p,
        ).len(),
    decreases n,
{
    if i < n - 1 {
        lemma_exprs_part(es, n - 1, i, ls, env, name, line, p);
    }
}

pub(crate) proof fn lemma_values_part(
    fs: Seq<(String, Expr)>,
    n: int,
    i: int,
    ls: Map<Seq<char>, LocalView>,
    env: EnvModifier,
    name: Seq<char>,
    line: nat,
    p: XeresProgram,
)
    requires
        0 <= i < n <= fs.len(),
    ensures
        field_values_diags(fs, n, ls, env, name, line, p).len() >= expr_diags(
            fs[i].1,
            ls,
            env,
            name,
            line,
            p,
        ).len(),
    decreases n,
{
    if i < n - 1 {
        lemma_values_part(fs, n - 1, i, ls, env, name, line, p);
    }
}

pub(crate) proof fn lemma_args_part(
    es: Seq<Expr>,
    n: int,
    i: int,
    method: Seq<char>,
    elem: Option<Seq<char>>,
    init: Option<Seq<char>>,
    ls: Map<Seq<char>, LocalView>,
    env: EnvModifier,
    name: Seq<char>,
    line: nat,
    p: XeresProgram,
)
    requires
        0 <= i < n <= es.len(),
    ensures
        args_diags(es, n, method, elem, init, ls, env, name, line, p).len() >= (match es[i] {
            Expr::Closure { params, body } => expr_diags(
                *body,
                closure_scope(ls, params@, params@.len() as int, method, elem, init),
                env,
                name,
                line,
                p,
            ),
            _ => expr_diags(es[i], ls, env, name, line, p),
        }).len(),
    decreases n,
{
    if i < n - 1 {
        lemma_args_part(es, n - 1, i, method, elem, init, ls, env, name, line, p);
    }
}

/// What reaches so is reported wherever it stands in an expression.
proof fn lemma_stray_reported(
    e: Expr,
    ls: Map<Seq<char>, LocalView>,
    env: EnvModifier,
    name: Seq<char>,
    line: nat,
    p: XeresProgram,
)
    requires
        holds_stray(e, env, p),
    ensures
        expr_diags(e, ls, env, name, line, p).len() > 0,
    decreases e, 1int,
{
    lemma_words_differ();
    if strays(e, env, p) {
        if e is Call {
            assert(expr_diags(e, ls, env, name, line, p) == call_diags(e, ls, env, name, line, p));
        }
        if let Expr::MethodCall { receiver, method, args } = e {
            assert(method_diags(*receiver, method@, args@, ls, env, name, line, p).len() > 0);
        }
    } else {
        lemma_stray_inside(e, ls, env, name, line, p);
    }
}

proof fn lemma_stray_inside(
    e: Expr,
    ls: Map<Seq<char>, LocalView>,
    env: EnvModifier,
    name: Seq<char>,
    line: nat,
    p: XeresProgram,
)
    requires
        holds_stray(e, env, p),
        !strays(e, env, p),
    ensures
        expr_diags(e, ls, env, name, line, p).len() > 0,
    decreases e, 0int,
{
    match e {
        Expr::Int(_)
        | Expr::Float(_)
        | Expr::Str(_)
        | Expr::Bool(_)
        | Expr::Ident(_)
        | Expr::NoneLit => {},
        Expr::Field { base, .. } => {
            lemma_stray_reported(*base, ls, env, name, line, p);
        },
        Expr::Unary { expr, .. } => {
            lemma_stray_reported(*expr, ls, env, name, line, p);
        },
        Expr::Binary { left, right, .. } => {
            if holds_stray(*left, env, p) {
                lemma_stray_reported(*left, ls, env, name, line, p);
            } else {
                lemma_stray_reported(*right, ls, env, name, line, p);
            }
        },
        Expr::Call { callee, args } => {
            assert(expr_diags(e, ls, env, name, line, p) == call_diags(e, ls, env, name, line, p));
            if callee@ == "decimal"@ {
                lemma_stray_reported(args@[0], ls, env, name, line, p);
            } else {
                let i = choose|i: int| 0 <= i < args@.len() && holds_stray(#[trigger] args@[i], env, p);
                lemma_stray_reported(args@[i], ls, env, name, line, p);
                lemma_exprs_part(args@, args@.len() as int, i, ls, env, name, line, p);
            }
        },
        Expr::MethodCall { receiver, method, args } => {
            let elem = elem_of(type_of(*receiver, ls, p));
            let init = if args@.len() > 0 {
                type_of(args@[0], ls, p)
            } else {
                None
            };
            if holds_stray(*receiver, env, p) {
                lemma_stray_reported(*receiver, ls, env, name, line, p);
            } else {
                let i = choose|i: int| 0 <= i < args@.len() && holds_stray(#[trigger] args@[i], env, p);
                lemma_args_part(
                    args@,
                    args@.len() as int,
                    i,
                    method@,
                    elem,
                    init,
                    ls,
                    env,
                    name,
                    line,
                    p,
                );
                match args@[i] {
                    Expr::Closure { params, body } => {
                        lemma_stray_reported(
                            *body,
                            closure_scope(ls, params@, params@.len() as int, method@, elem, init),
                            env,
                            name,
                            line,
                            p,
                        );
                    },
                    _ => {
                        lemma_stray_reported(args@[i], ls, env, name, line, p);
                    },
                }
            }
        },
        Expr::Declassify(inner) => {
            lemma_stray_reported(*inner, ls, env, name, line, p);
        },
        Expr::Raw(inner) => {
            lemma_stray_reported(*inner, ls, env, name, line, p);
        },
        Expr::Await(inner) => {
            lemma_stray_reported(*inner, ls, env, name, line, p);
        },
        Expr::Record { fields, .. } => {
            let i = choose|i: int|
                0 <= i < fields@.len() && holds_stray((#[trigger] fields@[i]).1, env, p);
            lemma_stray_reported(fields@[i].1, ls, env, name, line, p);
            lemma_values_part(fields@, fields@.len() as int, i, ls, env, name, line, p);
        },
        Expr::ListLit(items) => {
            let i = choose|i: int| 0 <= i < items@.len() && holds_stray(#[trigger] items@[i], env, p);
            lemma_stray_reported(items@[i], ls, env, name, line, p);
            lemma_exprs_part(items@, items@.len() as int, i, ls, env, name, line, p);
        },
        Expr::Ternary { cond, yes, otherwise } => {
            if holds_stray(*cond, env, p) {
                lemma_stray_reported(*cond, ls, env, name, line, p);
            } else if holds_stray(*yes, env, p) {
                lemma_stray_reported(*yes, ls, env, name, line, p);
            } else {
                lemma_stray_reported(*otherwise, ls, env, name, line, p);
            }
        },
        Expr::Range { start, end } => {
            if holds_stray(*start, env, p) {
                lemma_stray_reported(*start, ls, env, name, line, p);
            } else {
                lemma_stray_reported(*end, ls, env, name, line, p);
            }
        },
        Expr::Index { base, index } => {
            if holds_stray(*base, env, p) {
                lemma_stray_reported(*base, ls, env, name, line, p);
            } else {
                lemma_stray_reported(*index, ls, env, name, line, p);
            }
        },
        Expr::Closure { params, body } => {
            lemma_stray_reported(
                *body,
                closure_scope(ls, params@, params@.len() as int, ""@, None, None),
                env,
                name,
                line,
                p,
            );
        },
    }
}

proof fn lemma_words_differ()
    ensures
        "db"@ != "log"@,
        "db"@ != "session"@,
        "log"@ != "session"@,
        "hash"@ != "navigate"@,
        "hash"@ != "decimal"@,
        "verify"@ != "navigate"@,
        "verify"@ != "decimal"@,
{
    reveal_strlit("hash");
    reveal_strlit("verify");
    assert("hash"@.len() == 4);
    assert("verify"@.len() == 6);
    reveal_strlit("db");
    reveal_strlit("log");
    reveal_strlit("session");
    reveal_strlit("navigate");
    reveal_strlit("decimal");
    assert("db"@.len() == 2);
    assert("log"@.len() == 3);
    assert("session"@.len() == 7);
    assert("navigate"@.len() == 8);
    assert("decimal"@.len() == 7);
}

pub(crate) proof fn lemma_flow_part(
    ss: Seq<Stmt>,
    n: int,
    i: int,
    ls: Map<Seq<char>, LocalView>,
    c: SiteView,
    p: XeresProgram,
)
    requires
        0 <= i < n <= ss.len(),
    ensures
        flow_diags(ss, n, ls, c, p).len() >= stmt_diags(ss[i], let_scope(ss, i, ls, p), c, p).len(),
    decreases n,
{
    if i < n - 1 {
        lemma_flow_part(ss, n - 1, i, ls, c, p);
    }
}

pub(crate) proof fn lemma_arms_part(
    arms: Seq<MatchArm>,
    n: int,
    i: int,
    ls: Map<Seq<char>, LocalView>,
    c: SiteView,
    p: XeresProgram,
)
    requires
        0 <= i < n <= arms.len(),
    ensures
        arms_diags(arms, n, ls, c, p).len() >= flow_diags(
            arms[i].body@,
            arms[i].body@.len() as int,
            ls,
            c,
            p,
        ).len(),
    decreases n,
{
    if i < n - 1 {
        lemma_arms_part(arms, n - 1, i, ls, c, p);
    }
}

proof fn lemma_stray_in_list(
    ss: Seq<Stmt>,
    i: int,
    ls: Map<Seq<char>, LocalView>,
    c: SiteView,
    p: XeresProgram,
)
    requires
        0 <= i < ss.len(),
        stmt_strays(ss[i], c.env, p),
    ensures
        flow_diags(ss, ss.len() as int, ls, c, p).len() > 0,
    decreases ss,
{
    lemma_stray_in_stmt(ss[i], let_scope(ss, i, ls, p), c, p);
    lemma_flow_part(ss, ss.len() as int, i, ls, c, p);
}

proof fn lemma_stray_in_stmt(s: Stmt, ls: Map<Seq<char>, LocalView>, c: SiteView, p: XeresProgram)
    requires
        stmt_strays(s, c.env, p),
    ensures
        stmt_diags(s, ls, c, p).len() > 0,
    decreases s,
{
    match s {
        Stmt::Let { value, .. } => {
            lemma_stray_reported(value, ls, c.env, c.name, c.line, p);
        },
        Stmt::Assign { value, .. } => {
            lemma_stray_reported(value, ls, c.env, c.name, c.line, p);
        },
        Stmt::Return(e) => {
            lemma_stray_reported(e, ls, c.env, c.name, c.line, p);
        },
        Stmt::Expr(e) => {
            lemma_stray_reported(e, ls, c.env, c.name, c.line, p);
        },
        Stmt::Try { body, handler } => {
            if exists|i: int| 0 <= i < body@.len() && stmt_strays(#[trigger] body@[i], c.env, p) {
                let i = choose|i: int|
                    0 <= i < body@.len() && stmt_strays(#[trigger] body@[i], c.env, p);
                lemma_stray_in_list(body@, i, ls, c, p);
            } else {
                let i = choose|i: int|
                    0 <= i < handler@.len() && stmt_strays(#[trigger] handler@[i], c.env, p);
                lemma_stray_in_list(handler@, i, ls, c, p);
            }
        },
        Stmt::If { cond, then_body, else_body } => {
            if holds_stray(cond, c.env, p) {
                lemma_stray_reported(cond, ls, c.env, c.name, c.line, p);
            } else if exists|i: int|
                0 <= i < then_body@.len() && stmt_strays(#[trigger] then_body@[i], c.env, p) {
                let i = choose|i: int|
                    0 <= i < then_body@.len() && stmt_strays(#[trigger] then_body@[i], c.env, p);
                lemma_stray_in_list(then_body@, i, ls, c, p);
            } else {
                let i = choose|i: int|
                    0 <= i < else_body@.len() && stmt_strays(#[trigger] else_body@[i], c.env, p);
                lemma_stray_in_list(else_body@, i, ls, c, p);
            }
        },
        Stmt::For { var, iter, body } => {
            if holds_stray(iter, c.env, p) {
                lemma_stray_reported(iter, ls, c.env, c.name, c.line, p);
            } else {
                let i = choose|i: int|
                    0 <= i < body@.len() && stmt_strays(#[trigger] body@[i], c.env, p);
                lemma_stray_in_list(
                    body@,
                    i,
                    ls.insert(var@, typed(element_type(iter, ls, p))),
                    c,
                    p,
                );
            }
        },
        Stmt::While { cond, body } => {
            if holds_stray(cond, c.env, p) {
                lemma_stray_reported(cond, ls, c.env, c.name, c.line, p);
            } else {
                let i = choose|i: int|
                    0 <= i < body@.len() && stmt_strays(#[trigger] body@[i], c.env, p);
                lemma_stray_in_list(body@, i, ls, c, p);
            }
        },
        Stmt::Match { scrutinee, arms } => {
            if holds_stray(scrutinee, c.env, p) {
                lemma_stray_reported(scrutinee, ls, c.env, c.name, c.line, p);
            } else {
                let (i, j) = choose|i: int, j: int|
                    0 <= i < arms@.len() && 0 <= j < arms@[i].body@.len() && stmt_strays(
                        #[trigger] arms@[i].body@[j],
                        c.env,
                        p,
                    );
                lemma_stray_in_list(arms@[i].body@, j, ls, c, p);
                lemma_arms_part(arms@, arms@.len() as int, i, ls, c, p);
            }
        },
        Stmt::Transaction(body) => {
            if c.env == EnvModifier::Server {
                let i = choose|i: int|
                    0 <= i < body@.len() && stmt_strays(#[trigger] body@[i], c.env, p);
                lemma_stray_in_list(body@, i, ls, c, p);
            }
        },
        Stmt::Break | Stmt::Continue => {},
    }
}

/// In an accepted program the server's authority stays on the server, SQL is a literal, and so is the
/// path of an outbound request: no statement of a function reaches for any of it otherwise.
pub proof fn law_accepted_program_keeps_authority(p: XeresProgram, i: int, k: int)
    requires
        accepted(p),
        0 <= i < p.functions@.len(),
        0 <= k < p.functions@[i].body@.len(),
    ensures
        !stmt_strays(p.functions@[i].body@[k], p.functions@[i].env, p),
{
    let f = p.functions@[i];
    law_accepted_functions_are_clean(p, i);
    if stmt_strays(f.body@[k], f.env, p) {
        lemma_stray_in_list(
            f.body@,
            k,
            param_scope(f.params@, f.params@.len() as int),
            function_site(f),
            p,
        );
    }
}

/// Whether a view node reaches so anywhere in it. The target of a link is the name of a screen.
pub open spec fn view_strays(v: ViewNode, p: XeresProgram) -> bool
    decreases v,
{
    match v {
        ViewNode::Element { tag, arg, event, children, .. } => {
            ||| arg matches Some(a) && holds_stray(a, EnvModifier::Ui, p)
            ||| tag@ != "link"@ && (event matches Some(Handler::Call(e)) && holds_stray(
                e,
                EnvModifier::Ui,
                p,
            ))
            ||| tag@ != "link"@ && (event matches Some(Handler::Block(ss)) && exists|i: int|
                0 <= i < ss@.len() && stmt_strays(#[trigger] ss@[i], EnvModifier::Ui, p))
            ||| exists|i: int| 0 <= i < children@.len() && view_strays(#[trigger] children@[i], p)
        },
        ViewNode::For { iter, body, .. } => {
            ||| holds_stray(iter, EnvModifier::Ui, p)
            ||| exists|i: int| 0 <= i < body@.len() && view_strays(#[trigger] body@[i], p)
        },
        ViewNode::If { cond, then_body, else_body } => {
            ||| holds_stray(cond, EnvModifier::Ui, p)
            ||| exists|i: int| 0 <= i < then_body@.len() && view_strays(#[trigger] then_body@[i], p)
            ||| exists|i: int| 0 <= i < else_body@.len() && view_strays(#[trigger] else_body@[i], p)
        },
        ViewNode::Component { args, .. } => exists|i: int|
            0 <= i < args@.len() && holds_stray((#[trigger] args@[i]).1, EnvModifier::Ui, p),
    }
}

proof fn lemma_handler_part(
    ss: Seq<Stmt>,
    n: int,
    i: int,
    ls: Map<Seq<char>, LocalView>,
    s: Seq<char>,
    line: nat,
    p: XeresProgram,
)
    requires
        0 <= i < n <= ss.len(),
    ensures
        handler_diags(ss, n, ls, s, line, p).len() >= handler_stmt_diags(
            ss[i],
            let_scope(ss, i, ls, p),
            s,
            line,
            p,
        ).len(),
    decreases n,
{
    if i < n - 1 {
        lemma_handler_part(ss, n - 1, i, ls, s, line, p);
    }
}

proof fn lemma_handler_arms_part(
    arms: Seq<MatchArm>,
    n: int,
    i: int,
    ls: Map<Seq<char>, LocalView>,
    s: Seq<char>,
    line: nat,
    p: XeresProgram,
)
    requires
        0 <= i < n <= arms.len(),
    ensures
        handler_arms_diags(arms, n, ls, s, line, p).len() >= handler_diags(
            arms[i].body@,
            arms[i].body@.len() as int,
            ls,
            s,
            line,
            p,
        ).len(),
    decreases n,
{
    if i < n - 1 {
        lemma_handler_arms_part(arms, n - 1, i, ls, s, line, p);
    }
}

proof fn lemma_stray_in_handler(
    ss: Seq<Stmt>,
    i: int,
    ls: Map<Seq<char>, LocalView>,
    s: Seq<char>,
    line: nat,
    p: XeresProgram,
)
    requires
        0 <= i < ss.len(),
        stmt_strays(ss[i], EnvModifier::Ui, p),
    ensures
        handler_diags(ss, ss.len() as int, ls, s, line, p).len() > 0,
    decreases ss,
{
    lemma_stray_in_handler_stmt(ss[i], let_scope(ss, i, ls, p), s, line, p);
    lemma_handler_part(ss, ss.len() as int, i, ls, s, line, p);
}

proof fn lemma_stray_in_handler_stmt(
    st: Stmt,
    ls: Map<Seq<char>, LocalView>,
    s: Seq<char>,
    line: nat,
    p: XeresProgram,
)
    requires
        stmt_strays(st, EnvModifier::Ui, p),
    ensures
        handler_stmt_diags(st, ls, s, line, p).len() > 0,
    decreases st,
{
    let ui = EnvModifier::Ui;
    match st {
        Stmt::Let { value, .. } => {
            lemma_stray_reported(value, ls, ui, s, line, p);
        },
        Stmt::Assign { value, .. } => {
            lemma_stray_reported(value, ls, ui, s, line, p);
        },
        Stmt::Return(e) => {
            lemma_stray_reported(e, ls, ui, s, line, p);
        },
        Stmt::Expr(e) => {
            lemma_stray_reported(e, ls, ui, s, line, p);
        },
        Stmt::Try { body, handler } => {
            if exists|i: int| 0 <= i < body@.len() && stmt_strays(#[trigger] body@[i], ui, p) {
                let i = choose|i: int| 0 <= i < body@.len() && stmt_strays(#[trigger] body@[i], ui, p);
                lemma_stray_in_handler(body@, i, ls, s, line, p);
            } else {
                let i = choose|i: int|
                    0 <= i < handler@.len() && stmt_strays(#[trigger] handler@[i], ui, p);
                lemma_stray_in_handler(handler@, i, ls, s, line, p);
            }
        },
        Stmt::If { cond, then_body, else_body } => {
            if holds_stray(cond, ui, p) {
                lemma_stray_reported(cond, ls, ui, s, line, p);
            } else if exists|i: int|
                0 <= i < then_body@.len() && stmt_strays(#[trigger] then_body@[i], ui, p) {
                let i = choose|i: int|
                    0 <= i < then_body@.len() && stmt_strays(#[trigger] then_body@[i], ui, p);
                lemma_stray_in_handler(then_body@, i, ls, s, line, p);
            } else {
                let i = choose|i: int|
                    0 <= i < else_body@.len() && stmt_strays(#[trigger] else_body@[i], ui, p);
                lemma_stray_in_handler(else_body@, i, ls, s, line, p);
            }
        },
        Stmt::For { var, iter, body } => {
            if holds_stray(iter, ui, p) {
                lemma_stray_reported(iter, ls, ui, s, line, p);
            } else {
                let i = choose|i: int| 0 <= i < body@.len() && stmt_strays(#[trigger] body@[i], ui, p);
                lemma_stray_in_handler(
                    body@,
                    i,
                    ls.insert(var@, typed(element_type(iter, ls, p))),
                    s,
                    line,
                    p,
                );
            }
        },
        Stmt::While { cond, body } => {
            if holds_stray(cond, ui, p) {
                lemma_stray_reported(cond, ls, ui, s, line, p);
            } else {
                let i = choose|i: int| 0 <= i < body@.len() && stmt_strays(#[trigger] body@[i], ui, p);
                lemma_stray_in_handler(body@, i, ls, s, line, p);
            }
        },
        Stmt::Match { scrutinee, arms } => {
            if holds_stray(scrutinee, ui, p) {
                lemma_stray_reported(scrutinee, ls, ui, s, line, p);
            } else {
                let (i, j) = choose|i: int, j: int|
                    0 <= i < arms@.len() && 0 <= j < arms@[i].body@.len() && stmt_strays(
                        #[trigger] arms@[i].body@[j],
                        ui,
                        p,
                    );
                lemma_stray_in_handler(arms@[i].body@, j, ls, s, line, p);
                lemma_handler_arms_part(arms@, arms@.len() as int, i, ls, s, line, p);
            }
        },
        Stmt::Transaction(_) => {},
        Stmt::Break | Stmt::Continue => {},
    }
}

proof fn lemma_views_part(
    vs: Seq<ViewNode>,
    n: int,
    i: int,
    ls: Map<Seq<char>, LocalView>,
    states: Seq<StateNode>,
    s: Seq<char>,
    line: nat,
    p: XeresProgram,
)
    requires
        0 <= i < n <= vs.len(),
    ensures
        views_diags(vs, n, ls, states, s, line, p).len() >= view_diags(
            vs[i],
            ls,
            states,
            s,
            line,
            p,
        ).len(),
    decreases n,
{
    if i < n - 1 {
        lemma_views_part(vs, n - 1, i, ls, states, s, line, p);
    }
}

proof fn lemma_arg_values_part(
    args: Seq<(String, Expr)>,
    n: int,
    i: int,
    ls: Map<Seq<char>, LocalView>,
    s: Seq<char>,
    line: nat,
    p: XeresProgram,
)
    requires
        0 <= i < n <= args.len(),
    ensures
        arg_values_diags(args, n, ls, s, line, p).len() >= screen_expr_diags(
            args[i].1,
            ls,
            s,
            line,
            p,
        ).len(),
    decreases n,
{
    if i < n - 1 {
        lemma_arg_values_part(args, n - 1, i, ls, s, line, p);
    }
}

proof fn lemma_stray_in_views(
    vs: Seq<ViewNode>,
    i: int,
    ls: Map<Seq<char>, LocalView>,
    states: Seq<StateNode>,
    s: Seq<char>,
    line: nat,
    p: XeresProgram,
)
    requires
        0 <= i < vs.len(),
        view_strays(vs[i], p),
    ensures
        views_diags(vs, vs.len() as int, ls, states, s, line, p).len() > 0,
    decreases vs,
{
    lemma_stray_in_view(vs[i], ls, states, s, line, p);
    lemma_views_part(vs, vs.len() as int, i, ls, states, s, line, p);
}

proof fn lemma_stray_in_view(
    v: ViewNode,
    ls: Map<Seq<char>, LocalView>,
    states: Seq<StateNode>,
    s: Seq<char>,
    line: nat,
    p: XeresProgram,
)
    requires
        view_strays(v, p),
    ensures
        view_diags(v, ls, states, s, line, p).len() > 0,
    decreases v,
{
    let ui = EnvModifier::Ui;
    match v {
        ViewNode::Element { tag, arg, event, children, .. } => {
            if exists|i: int| 0 <= i < children@.len() && view_strays(#[trigger] children@[i], p) {
                let i = choose|i: int|
                    0 <= i < children@.len() && view_strays(#[trigger] children@[i], p);
                lemma_stray_in_views(children@, i, ls, states, s, line, p);
            } else if arg is Some && holds_stray(arg->0, ui, p) {
                lemma_stray_reported(arg->0, ls, ui, s, line, p);
            } else {
                match event {
                    Some(Handler::Call(e)) => {
                        lemma_stray_reported(e, ls, ui, s, line, p);
                    },
                    Some(Handler::Block(ss)) => {
                        let i = choose|i: int| 0 <= i < ss@.len() && stmt_strays(#[trigger] ss@[i], ui, p);
                        lemma_stray_in_handler(ss@, i, ls, s, line, p);
                    },
                    None => {},
                }
            }
        },
        ViewNode::For { var, iter, body } => {
            if holds_stray(iter, ui, p) {
                lemma_stray_reported(iter, ls, ui, s, line, p);
            } else {
                let i = choose|i: int| 0 <= i < body@.len() && view_strays(#[trigger] body@[i], p);
                lemma_stray_in_views(
                    body@,
                    i,
                    ls.insert(var@, typed(element_type(iter, ls, p))),
                    states,
                    s,
                    line,
                    p,
                );
            }
        },
        ViewNode::If { cond, then_body, else_body } => {
            if holds_stray(cond, ui, p) {
                lemma_stray_reported(cond, ls, ui, s, line, p);
            } else if exists|i: int|
                0 <= i < then_body@.len() && view_strays(#[trigger] then_body@[i], p) {
                let i = choose|i: int|
                    0 <= i < then_body@.len() && view_strays(#[trigger] then_body@[i], p);
                lemma_stray_in_views(then_body@, i, ls, states, s, line, p);
            } else {
                let i = choose|i: int|
                    0 <= i < else_body@.len() && view_strays(#[trigger] else_body@[i], p);
                lemma_stray_in_views(else_body@, i, ls, states, s, line, p);
            }
        },
        ViewNode::Component { args, line: at, .. } => {
            let i = choose|i: int|
                0 <= i < args@.len() && holds_stray((#[trigger] args@[i]).1, ui, p);
            lemma_stray_reported(args@[i].1, ls, ui, s, at as nat, p);
            lemma_arg_values_part(args@, args@.len() as int, i, ls, s, at as nat, p);
        },
    }
}

/// In an accepted program no screen reaches for the server's authority: not in its view, not in the
/// handlers of its events, and not in its loader.
pub proof fn law_accepted_screens_have_no_authority(p: XeresProgram, i: int, k: int)
    requires
        accepted(p),
        0 <= i < p.screens@.len(),
    ensures
        0 <= k < p.screens@[i].body@.len() ==> !view_strays(p.screens@[i].body@[k], p),
        0 <= k < p.screens@[i].load@.len() ==> !stmt_strays(
            p.screens@[i].load@[k],
            EnvModifier::Ui,
            p,
        ),
{
    let sc = p.screens@[i];
    let props = param_scope(sc.params@, sc.params@.len() as int);
    let ls = cell_scope(sc.states@, sc.states@.len() as int, props);
    law_accepted_screens_are_clean(p, i);
    if 0 <= k < sc.body@.len() && view_strays(sc.body@[k], p) {
        lemma_stray_in_views(sc.body@, k, ls, sc.states@, sc.name@, sc.line as nat, p);
    }
    if 0 <= k < sc.load@.len() && stmt_strays(sc.load@[k], EnvModifier::Ui, p) {
        lemma_stray_in_list(sc.load@, k, ls, load_site(sc), p);
    }
}

proof fn lemma_routes_clean(list: Seq<ApiRoute>, n: int, base: Seq<char>, p: XeresProgram, i: int)
    requires
        0 <= i < n <= list.len(),
        routes_diags(list, n, base, p).len() == 0,
    ensures
        route_diags(base, list[i], p).len() == 0,
    decreases n,
{
    if i < n - 1 {
        lemma_routes_clean(list, n - 1, base, p, i);
    }
}

proof fn lemma_apis_clean(list: Seq<ApiNode>, n: int, p: XeresProgram, i: int)
    requires
        0 <= i < n <= list.len(),
        apis_diags(list, n, p).len() == 0,
    ensures
        routes_diags(list[i].routes@, list[i].routes@.len() as int, list[i].base@, p).len() == 0,
    decreases n,
{
    if i < n - 1 {
        lemma_apis_clean(list, n - 1, p, i);
    }
}

/// What holds of the functions of an accepted program holds of the routes of its `api` blocks: their
/// SQL and the paths of their outbound requests are literals.
pub proof fn law_accepted_routes_keep_authority(p: XeresProgram, i: int, r: int, k: int)
    requires
        accepted(p),
        0 <= i < p.apis@.len(),
        0 <= r < p.apis@[i].routes@.len(),
        0 <= k < p.apis@[i].routes@[r].body_stmts@.len(),
    ensures
        !stmt_strays(p.apis@[i].routes@[r].body_stmts@[k], EnvModifier::Server, p),
{
    let api = p.apis@[i];
    let route = api.routes@[r];
    lemma_apis_clean(p.apis@, p.apis@.len() as int, p, i);
    lemma_routes_clean(api.routes@, api.routes@.len() as int, api.base@, p, r);
    if stmt_strays(route.body_stmts@[k], EnvModifier::Server, p) {
        lemma_stray_in_list(
            route.body_stmts@,
            k,
            route_scope(route),
            route_site(api.base@, route),
            p,
        );
    }
}

} // verus!
