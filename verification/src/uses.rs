//! Which capabilities and builtins a program uses: the signals that decide which
//! preludes, runtimes and dependencies generated code carries.
use vstd::prelude::*;

use crate::ast::{
    ApiRoute, Expr, Handler, MatchArm, ScreenNode, Stmt, ViewNode, XeresProgram,
};
use crate::text::{has_prefix, same, starts_with};

verus! {

/// What to look for in a program.
#[derive(Debug, Clone, Copy, PartialEq, Eq, Structural)]
pub enum Feature {
    /// A call of `hash` or `verify`.
    Auth,
    /// A read of, or a call on, `session`.
    Session,
    /// A call on `db`.
    Db,
    /// A call of one of the lowered Decimal operations (`__dec_*`).
    Decimal,
    /// An `await`.
    Await,
}

/// Whether an expression is the identifier `name`.
pub open spec fn is_ident_text(e: Expr, name: Seq<char>) -> bool {
    e matches Expr::Ident(n) && n@ == name
}

/// Whether an expression is the identifier `name`.
pub fn is_ident(e: &Expr, name: &str) -> (r: bool)
    ensures
        r == is_ident_text(*e, name@),
{
    match e {
        Expr::Ident(n) => same(n, name),
        _ => false,
    }
}

/// Whether this one node, its parts aside, is a use of the feature.
pub open spec fn node_uses(e: Expr, f: Feature) -> bool {
    match f {
        Feature::Auth => e matches Expr::Call { callee, .. } && (callee@ == "hash"@ || callee@
            == "verify"@),
        Feature::Session => match e {
            Expr::Field { base, .. } => is_ident_text(*base, "session"@),
            Expr::MethodCall { receiver, .. } => is_ident_text(*receiver, "session"@),
            _ => false,
        },
        Feature::Db => e matches Expr::MethodCall { receiver, .. } && is_ident_text(
            *receiver,
            "db"@,
        ),
        Feature::Decimal => e matches Expr::Call { callee, .. } && has_prefix(callee@, "__dec_"@),
        Feature::Await => e is Await,
    }
}

/// Whether an expression, or an expression inside it, is a use of the feature.
pub open spec fn expr_uses_spec(e: Expr, f: Feature) -> bool
    decreases e,
{
    node_uses(e, f) || match e {
        Expr::Field { base, .. } => expr_uses_spec(*base, f),
        Expr::Unary { expr, .. } => expr_uses_spec(*expr, f),
        Expr::Binary { left, right, .. } => expr_uses_spec(*left, f) || expr_uses_spec(*right, f),
        Expr::Call { args, .. } => exists|i: int|
            0 <= i < args@.len() && expr_uses_spec(#[trigger] args@[i], f),
        Expr::MethodCall { receiver, args, .. } => expr_uses_spec(*receiver, f) || exists|i: int|
            0 <= i < args@.len() && expr_uses_spec(#[trigger] args@[i], f),
        Expr::Declassify(i) => expr_uses_spec(*i, f),
        Expr::Raw(i) => expr_uses_spec(*i, f),
        Expr::Await(i) => expr_uses_spec(*i, f),
        Expr::Record { fields, .. } => exists|i: int|
            0 <= i < fields@.len() && expr_uses_spec((#[trigger] fields@[i]).1, f),
        Expr::ListLit(items) => exists|i: int|
            0 <= i < items@.len() && expr_uses_spec(#[trigger] items@[i], f),
        Expr::Ternary { cond, yes, otherwise } => expr_uses_spec(*cond, f) || expr_uses_spec(
            *yes,
            f,
        ) || expr_uses_spec(*otherwise, f),
        Expr::Range { start, end } => expr_uses_spec(*start, f) || expr_uses_spec(*end, f),
        Expr::Closure { body, .. } => expr_uses_spec(*body, f),
        Expr::Index { base, index } => expr_uses_spec(*base, f) || expr_uses_spec(*index, f),
        _ => false,
    }
}

/// Whether a statement holds an expression that uses the feature.
pub open spec fn stmt_uses_spec(s: Stmt, f: Feature) -> bool
    decreases s,
{
    match s {
        Stmt::Let { value, .. } => expr_uses_spec(value, f),
        Stmt::Assign { value, .. } => expr_uses_spec(value, f),
        Stmt::Return(value) => expr_uses_spec(value, f),
        Stmt::Expr(value) => expr_uses_spec(value, f),
        Stmt::Try { body, handler } => stmts_use_spec(body@, f) || stmts_use_spec(handler@, f),
        Stmt::If { cond, then_body, else_body } => expr_uses_spec(cond, f) || stmts_use_spec(
            then_body@,
            f,
        ) || stmts_use_spec(else_body@, f),
        Stmt::For { iter, body, .. } => expr_uses_spec(iter, f) || stmts_use_spec(body@, f),
        Stmt::While { cond, body } => expr_uses_spec(cond, f) || stmts_use_spec(body@, f),
        Stmt::Match { scrutinee, arms } => expr_uses_spec(scrutinee, f) || exists|i: int|
            0 <= i < arms@.len() && stmts_use_spec((#[trigger] arms@[i]).body@, f),
        Stmt::Transaction(body) => stmts_use_spec(body@, f),
        Stmt::Break => false,
        Stmt::Continue => false,
    }
}

/// Whether one of the statements uses the feature.
pub open spec fn stmts_use_spec(ss: Seq<Stmt>, f: Feature) -> bool
    decreases ss,
{
    exists|i: int| 0 <= i < ss.len() && stmt_uses_spec(#[trigger] ss[i], f)
}

/// Whether a view node holds an expression that uses the feature.
pub open spec fn view_uses_spec(v: ViewNode, f: Feature) -> bool
    decreases v,
{
    match v {
        ViewNode::Element { arg, style, event, children, .. } => {
            ||| arg matches Some(e) && expr_uses_spec(e, f)
            ||| style matches Some(e) && expr_uses_spec(e, f)
            ||| event matches Some(Handler::Call(e)) && expr_uses_spec(e, f)
            ||| event matches Some(Handler::Block(ss)) && stmts_use_spec(ss@, f)
            ||| views_use_spec(children@, f)
        },
        ViewNode::For { iter, body, .. } => expr_uses_spec(iter, f) || views_use_spec(body@, f),
        ViewNode::If { cond, then_body, else_body } => expr_uses_spec(cond, f) || views_use_spec(
            then_body@,
            f,
        ) || views_use_spec(else_body@, f),
        ViewNode::Component { args, .. } => exists|i: int|
            0 <= i < args@.len() && expr_uses_spec((#[trigger] args@[i]).1, f),
    }
}

/// Whether one of the view nodes uses the feature.
pub open spec fn views_use_spec(vs: Seq<ViewNode>, f: Feature) -> bool
    decreases vs,
{
    exists|i: int| 0 <= i < vs.len() && view_uses_spec(#[trigger] vs[i], f)
}

/// Whether a screen uses the feature, in its cells, its loader or its view.
pub open spec fn screen_uses_spec(s: ScreenNode, f: Feature) -> bool {
    ||| exists|i: int| 0 <= i < s.states@.len() && expr_uses_spec((#[trigger] s.states@[i]).init, f)
    ||| stmts_use_spec(s.load@, f)
    ||| views_use_spec(s.body@, f)
}

/// Whether a function body of the program uses the feature.
pub open spec fn functions_use_spec(p: XeresProgram, f: Feature) -> bool {
    exists|i: int|
        0 <= i < p.functions@.len() && stmts_use_spec((#[trigger] p.functions@[i]).body@, f)
}

/// Whether one of the routes uses the feature.
pub open spec fn routes_use_spec(rs: Seq<ApiRoute>, f: Feature) -> bool {
    exists|i: int| 0 <= i < rs.len() && stmts_use_spec((#[trigger] rs[i]).body_stmts@, f)
}

/// Whether the program does Decimal arithmetic, in a function, on a screen or in an `api` route.
pub open spec fn uses_decimal_spec(p: XeresProgram) -> bool {
    ||| functions_use_spec(p, Feature::Decimal)
    ||| exists|i: int|
        0 <= i < p.screens@.len() && screen_uses_spec(#[trigger] p.screens@[i], Feature::Decimal)
    ||| exists|i: int|
        0 <= i < p.apis@.len() && routes_use_spec(
            (#[trigger] p.apis@[i]).routes@,
            Feature::Decimal,
        )
}

fn node_test(e: &Expr, f: Feature) -> (r: bool)
    ensures
        r == node_uses(*e, f),
{
    match f {
        Feature::Auth => match e {
            Expr::Call { callee, .. } => same(callee, "hash") || same(callee, "verify"),
            _ => false,
        },
        Feature::Session => match e {
            Expr::Field { base, .. } => is_ident(base, "session"),
            Expr::MethodCall { receiver, .. } => is_ident(receiver, "session"),
            _ => false,
        },
        Feature::Db => match e {
            Expr::MethodCall { receiver, .. } => is_ident(receiver, "db"),
            _ => false,
        },
        Feature::Decimal => match e {
            Expr::Call { callee, .. } => starts_with(callee, "__dec_"),
            _ => false,
        },
        Feature::Await => match e {
            Expr::Await(_) => true,
            _ => false,
        },
    }
}

fn exprs_use(es: &Vec<Expr>, f: Feature) -> (r: bool)
    ensures
        r == (exists|i: int| 0 <= i < es@.len() && expr_uses_spec(#[trigger] es@[i], f)),
    decreases es,
{
    let mut i: usize = 0;
    while i < es.len()
        invariant
            i <= es.len(),
            forall|j: int| 0 <= j < i ==> !expr_uses_spec(#[trigger] es@[j], f),
        decreases es.len() - i,
    {
        if expr_uses(&es[i], f) {
            return true;
        }
        i = i + 1;
    }
    false
}

fn fields_use(es: &Vec<(String, Expr)>, f: Feature) -> (r: bool)
    ensures
        r == (exists|i: int| 0 <= i < es@.len() && expr_uses_spec((#[trigger] es@[i]).1, f)),
    decreases es,
{
    let mut i: usize = 0;
    while i < es.len()
        invariant
            i <= es.len(),
            forall|j: int| 0 <= j < i ==> !expr_uses_spec((#[trigger] es@[j]).1, f),
        decreases es.len() - i,
    {
        if expr_uses(&es[i].1, f) {
            return true;
        }
        i = i + 1;
    }
    false
}

/// Whether an expression, or an expression inside it, is a use of the feature.
pub fn expr_uses(e: &Expr, f: Feature) -> (r: bool)
    ensures
        r == expr_uses_spec(*e, f),
    decreases e,
{
    if node_test(e, f) {
        return true;
    }
    match e {
        Expr::Field { base, .. } => expr_uses(base, f),
        Expr::Unary { expr, .. } => expr_uses(expr, f),
        Expr::Binary { left, right, .. } => expr_uses(left, f) || expr_uses(right, f),
        Expr::Call { args, .. } => exprs_use(args, f),
        Expr::MethodCall { receiver, args, .. } => expr_uses(receiver, f) || exprs_use(args, f),
        Expr::Declassify(i) => expr_uses(i, f),
        Expr::Raw(i) => expr_uses(i, f),
        Expr::Await(i) => expr_uses(i, f),
        Expr::Record { fields, .. } => fields_use(fields, f),
        Expr::ListLit(items) => exprs_use(items, f),
        Expr::Ternary { cond, yes, otherwise } => expr_uses(cond, f) || expr_uses(yes, f)
            || expr_uses(otherwise, f),
        Expr::Range { start, end } => expr_uses(start, f) || expr_uses(end, f),
        Expr::Closure { body, .. } => expr_uses(body, f),
        Expr::Index { base, index } => expr_uses(base, f) || expr_uses(index, f),
        _ => false,
    }
}

fn arms_use(arms: &Vec<MatchArm>, f: Feature) -> (r: bool)
    ensures
        r == (exists|i: int| 0 <= i < arms@.len() && stmts_use_spec((#[trigger] arms@[i]).body@, f)),
    decreases arms,
{
    let mut i: usize = 0;
    while i < arms.len()
        invariant
            i <= arms.len(),
            forall|j: int| 0 <= j < i ==> !stmts_use_spec((#[trigger] arms@[j]).body@, f),
        decreases arms.len() - i,
    {
        if stmts_use(&arms[i].body, f) {
            return true;
        }
        i = i + 1;
    }
    false
}

/// Whether one of the statements uses the feature.
pub fn stmts_use(ss: &Vec<Stmt>, f: Feature) -> (r: bool)
    ensures
        r == stmts_use_spec(ss@, f),
    decreases ss,
{
    let mut i: usize = 0;
    while i < ss.len()
        invariant
            i <= ss.len(),
            forall|j: int| 0 <= j < i ==> !stmt_uses_spec(#[trigger] ss@[j], f),
        decreases ss.len() - i,
    {
        if stmt_uses(&ss[i], f) {
            return true;
        }
        i = i + 1;
    }
    false
}

/// Whether a statement holds an expression that uses the feature.
pub fn stmt_uses(s: &Stmt, f: Feature) -> (r: bool)
    ensures
        r == stmt_uses_spec(*s, f),
    decreases s,
{
    match s {
        Stmt::Let { value, .. } => expr_uses(value, f),
        Stmt::Assign { value, .. } => expr_uses(value, f),
        Stmt::Return(value) => expr_uses(value, f),
        Stmt::Expr(value) => expr_uses(value, f),
        Stmt::Try { body, handler } => stmts_use(body, f) || stmts_use(handler, f),
        Stmt::If { cond, then_body, else_body } => expr_uses(cond, f) || stmts_use(then_body, f)
            || stmts_use(else_body, f),
        Stmt::For { iter, body, .. } => expr_uses(iter, f) || stmts_use(body, f),
        Stmt::While { cond, body } => expr_uses(cond, f) || stmts_use(body, f),
        Stmt::Match { scrutinee, arms } => expr_uses(scrutinee, f) || arms_use(arms, f),
        Stmt::Transaction(body) => stmts_use(body, f),
        Stmt::Break => false,
        Stmt::Continue => false,
    }
}

fn views_use(vs: &Vec<ViewNode>, f: Feature) -> (r: bool)
    ensures
        r == views_use_spec(vs@, f),
    decreases vs,
{
    let mut i: usize = 0;
    while i < vs.len()
        invariant
            i <= vs.len(),
            forall|j: int| 0 <= j < i ==> !view_uses_spec(#[trigger] vs@[j], f),
        decreases vs.len() - i,
    {
        if view_uses(&vs[i], f) {
            return true;
        }
        i = i + 1;
    }
    false
}

/// Whether a view node holds an expression that uses the feature.
pub fn view_uses(v: &ViewNode, f: Feature) -> (r: bool)
    ensures
        r == view_uses_spec(*v, f),
    decreases v,
{
    match v {
        ViewNode::Element { arg, style, event, children, .. } => {
            let in_arg = match arg {
                Some(e) => expr_uses(e, f),
                None => false,
            };
            let in_style = match style {
                Some(e) => expr_uses(e, f),
                None => false,
            };
            let in_event = match event {
                Some(Handler::Call(e)) => expr_uses(e, f),
                Some(Handler::Block(ss)) => stmts_use(ss, f),
                None => false,
            };
            in_arg || in_style || in_event || views_use(children, f)
        },
        ViewNode::For { iter, body, .. } => expr_uses(iter, f) || views_use(body, f),
        ViewNode::If { cond, then_body, else_body } => expr_uses(cond, f) || views_use(then_body, f)
            || views_use(else_body, f),
        ViewNode::Component { args, .. } => fields_use(args, f),
    }
}

/// Whether a screen uses the feature, in its cells, its loader or its view.
pub fn screen_uses(s: &ScreenNode, f: Feature) -> (r: bool)
    ensures
        r == screen_uses_spec(*s, f),
{
    let mut i: usize = 0;
    while i < s.states.len()
        invariant
            i <= s.states.len(),
            forall|j: int| 0 <= j < i ==> !expr_uses_spec((#[trigger] s.states@[j]).init, f),
        decreases s.states.len() - i,
    {
        if expr_uses(&s.states[i].init, f) {
            return true;
        }
        i = i + 1;
    }
    stmts_use(&s.load, f) || views_use(&s.body, f)
}

/// Whether a function body of the program uses the feature.
pub fn functions_use(p: &XeresProgram, f: Feature) -> (r: bool)
    ensures
        r == functions_use_spec(*p, f),
{
    let mut i: usize = 0;
    while i < p.functions.len()
        invariant
            i <= p.functions.len(),
            forall|j: int| 0 <= j < i ==> !stmts_use_spec((#[trigger] p.functions@[j]).body@, f),
        decreases p.functions.len() - i,
    {
        if stmts_use(&p.functions[i].body, f) {
            return true;
        }
        i = i + 1;
    }
    false
}

/// Whether any function body calls the `hash` or `verify` builtin.
pub fn uses_auth(p: &XeresProgram) -> (r: bool)
    ensures
        r == functions_use_spec(*p, Feature::Auth),
{
    functions_use(p, Feature::Auth)
}

/// Whether any function body refers to the `session` capability.
pub fn uses_session(p: &XeresProgram) -> (r: bool)
    ensures
        r == functions_use_spec(*p, Feature::Session),
{
    functions_use(p, Feature::Session)
}

/// Whether any function body refers to the `db` capability.
pub fn uses_db(p: &XeresProgram) -> (r: bool)
    ensures
        r == functions_use_spec(*p, Feature::Db),
{
    functions_use(p, Feature::Db)
}

fn routes_use(rs: &Vec<ApiRoute>, f: Feature) -> (r: bool)
    ensures
        r == routes_use_spec(rs@, f),
{
    let mut i: usize = 0;
    while i < rs.len()
        invariant
            i <= rs.len(),
            forall|j: int| 0 <= j < i ==> !stmts_use_spec((#[trigger] rs@[j]).body_stmts@, f),
        decreases rs.len() - i,
    {
        if stmts_use(&rs[i].body_stmts, f) {
            return true;
        }
        i = i + 1;
    }
    false
}

/// Whether the program does Decimal arithmetic, in a function, on a screen or in an `api` route.
pub fn uses_decimal(p: &XeresProgram) -> (r: bool)
    ensures
        r == uses_decimal_spec(*p),
{
    if functions_use(p, Feature::Decimal) {
        return true;
    }
    let mut i: usize = 0;
    while i < p.screens.len()
        invariant
            i <= p.screens.len(),
            forall|j: int|
                0 <= j < i ==> !screen_uses_spec(#[trigger] p.screens@[j], Feature::Decimal),
        decreases p.screens.len() - i,
    {
        if screen_uses(&p.screens[i], Feature::Decimal) {
            return true;
        }
        i = i + 1;
    }
    let mut k: usize = 0;
    while k < p.apis.len()
        invariant
            k <= p.apis.len(),
            forall|j: int|
                0 <= j < k ==> !routes_use_spec(
                    (#[trigger] p.apis@[j]).routes@,
                    Feature::Decimal,
                ),
        decreases p.apis.len() - k,
    {
        if routes_use(&p.apis[k].routes, Feature::Decimal) {
            return true;
        }
        k = k + 1;
    }
    false
}

/// Whether a body holds an `await`, so that its function must be `async`.
pub fn stmts_have_await(ss: &Vec<Stmt>) -> (r: bool)
    ensures
        r == stmts_use_spec(ss@, Feature::Await),
{
    stmts_use(ss, Feature::Await)
}

} // verus!
