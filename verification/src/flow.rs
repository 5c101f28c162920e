//! The rules on statements: function bodies, loaders and event handlers.
use vstd::prelude::*;
use vstd::string::*;

use crate::ast::{EnvModifier, Expr, FunctionNode, MatchArm, Stmt, XeresProgram};
use crate::diagnostics::{clean, DiagView, Report};
use crate::messages;
use crate::resolve::{
    bind_copy, copy_locals, copy_opt, element_type, element_type_of, opt_text, resolve_type, type_of,
    typed, Local, LocalView, Locals,
};
use crate::rules::{check_expr, check_match_patterns, expr_diags, match_diags};
use crate::scope::{await_diags, bindings_diags, check_await, check_bindings};
use crate::table::{env_label, env_text, fits, type_compatible};
use crate::taint::{let_type, let_type_of, param_locals, param_scope};
use crate::text::same;
use crate::uses::{expr_uses, expr_uses_spec, is_ident, is_ident_text, Feature};

verus! {

/// What a body belongs to: where it runs, its name and line, and its declared return type.
pub struct Site {
    pub env: EnvModifier,
    pub name: String,
    pub line: usize,
    pub ret: Option<String>,
}

/// What a body belongs to, by its texts.
pub struct SiteView {
    pub env: EnvModifier,
    pub name: Seq<char>,
    pub line: nat,
    pub ret: Option<Seq<char>>,
}

impl View for Site {
    type V = SiteView;

    open spec fn view(&self) -> SiteView {
        SiteView {
            env: self.env,
            name: self.name@,
            line: self.line as nat,
            ret: opt_text(self.ret),
        }
    }
}

/// The names in scope behind the first `n` statements.
pub open spec fn let_scope(
    ss: Seq<Stmt>,
    n: int,
    ls: Map<Seq<char>, LocalView>,
    p: XeresProgram,
) -> Map<Seq<char>, LocalView>
    decreases n,
{
    if n <= 0 || n > ss.len() {
        ls
    } else {
        let before = let_scope(ss, n - 1, ls, p);
        match ss[n - 1] {
            Stmt::Let { name, type_ann, value } => before.insert(
                name@,
                typed(let_type(type_ann, value, before, p)),
            ),
            _ => before,
        }
    }
}

fn bind_let(s: &Stmt, scope: &mut Locals, p: &XeresProgram)
    ensures
        final(scope)@ == (match *s {
            Stmt::Let { name, type_ann, value } => old(scope)@.insert(
                name@,
                typed(let_type(type_ann, value, old(scope)@, *p)),
            ),
            _ => old(scope)@,
        }),
{
    if let Stmt::Let { name, type_ann, value } = s {
        let ty = let_type_of(type_ann, value, scope, p);
        scope.insert(name.clone(), Local { ty, tainted: false });
    }
}

/// R7: a `return` yields the declared type. A value whose type cannot be told is let pass.
pub open spec fn return_diags(
    e: Expr,
    ls: Map<Seq<char>, LocalView>,
    c: SiteView,
    p: XeresProgram,
) -> Seq<DiagView> {
    match type_of(e, ls, p) {
        None => clean(),
        Some(actual) => match c.ret {
            Some(declared) => if fits(actual, declared) {
                clean()
            } else {
                messages::return_mismatch_diag(c.name, declared, actual, c.line)
            },
            None => messages::return_undeclared_diag(c.name, actual, c.line),
        },
    }
}

/// R7: checks the value of a `return`.
pub fn check_return_type(e: &Expr, ls: &Locals, c: &Site, p: &XeresProgram) -> (r: Report)
    ensures
        r@ == return_diags(*e, ls@, c@, *p),
{
    match resolve_type(e, ls, p) {
        None => Report::new(),
        Some(actual) => match &c.ret {
            Some(declared) => if type_compatible(&actual, declared) {
                Report::new()
            } else {
                messages::return_mismatch(&c.name, declared, &actual, c.line)
            },
            None => messages::return_undeclared(&c.name, &actual, c.line),
        },
    }
}

/// What an expression of a body reports: the tier rules, then the `await` discipline.
pub open spec fn body_expr_diags(
    e: Expr,
    ls: Map<Seq<char>, LocalView>,
    c: SiteView,
    p: XeresProgram,
) -> Seq<DiagView> {
    expr_diags(e, ls, c.env, c.name, c.line, p) + await_diags(
        e,
        false,
        c.env != EnvModifier::Server,
        c.name,
        c.line,
        p,
    )
}

fn check_body_expr(e: &Expr, ls: &Locals, c: &Site, p: &XeresProgram) -> (r: Report)
    ensures
        r@ == body_expr_diags(*e, ls@, c@, *p),
{
    let mut out = check_expr(e, ls, c.env, &c.name, c.line, p);
    out.append(check_await(e, false, c.env != EnvModifier::Server, &c.name, c.line, p));
    out
}

/// Whether an expression has a known type that is not `Bool`.
pub open spec fn not_bool(e: Expr, ls: Map<Seq<char>, LocalView>, p: XeresProgram) -> Option<
    Seq<char>,
> {
    match type_of(e, ls, p) {
        Some(t) => if t == "Bool"@ {
            None
        } else {
            Some(t)
        },
        None => None,
    }
}

/// The type of an expression, where it is known and not `Bool`.
pub fn non_bool_type(e: &Expr, ls: &Locals, p: &XeresProgram) -> (r: Option<String>)
    ensures
        opt_text(r) == not_bool(*e, ls@, *p),
{
    match resolve_type(e, ls, p) {
        Some(t) => if same(&t, "Bool") {
            None
        } else {
            Some(t)
        },
        None => None,
    }
}

/// What a statement of a body reports.
pub open spec fn stmt_diags(
    s: Stmt,
    ls: Map<Seq<char>, LocalView>,
    c: SiteView,
    p: XeresProgram,
) -> Seq<DiagView>
    decreases s, 0int,
{
    match s {
        Stmt::Let { value, .. } => body_expr_diags(value, ls, c, p),
        Stmt::Return(e) => body_expr_diags(e, ls, c, p) + return_diags(e, ls, c, p),
        Stmt::Expr(e) => body_expr_diags(e, ls, c, p),
        Stmt::Assign { value, .. } => body_expr_diags(value, ls, c, p),
        Stmt::Try { body, handler } => (if c.env == EnvModifier::Ui {
            clean()
        } else {
            messages::try_context_diag(c.name, c.line)
        }) + flow_diags(body@, body@.len() as int, ls, c, p) + flow_diags(
            handler@,
            handler@.len() as int,
            ls,
            c,
            p,
        ),
        Stmt::If { cond, then_body, else_body } => body_expr_diags(cond, ls, c, p) + (match not_bool(
            cond,
            ls,
            p,
        ) {
            Some(t) => messages::if_cond_diag(c.name, t, c.line),
            None => clean(),
        }) + flow_diags(then_body@, then_body@.len() as int, ls, c, p) + flow_diags(
            else_body@,
            else_body@.len() as int,
            ls,
            c,
            p,
        ),
        Stmt::For { var, iter, body } => body_expr_diags(iter, ls, c, p) + flow_diags(
            body@,
            body@.len() as int,
            ls.insert(var@, typed(element_type(iter, ls, p))),
            c,
            p,
        ),
        Stmt::While { cond, body } => body_expr_diags(cond, ls, c, p) + (match not_bool(
            cond,
            ls,
            p,
        ) {
            Some(t) => messages::while_cond_diag(c.name, t, c.line),
            None => clean(),
        }) + flow_diags(body@, body@.len() as int, ls, c, p),
        Stmt::Match { scrutinee, arms } => body_expr_diags(scrutinee, ls, c, p) + match_diags(
            scrutinee,
            arms@,
            ls,
            p,
            c.line,
        ) + arms_diags(arms@, arms@.len() as int, ls, c, p),
        Stmt::Transaction(body) => (if c.env == EnvModifier::Server {
            clean()
        } else {
            messages::transaction_env_diag(c.name, env_text(c.env), c.line)
        }) + flow_diags(body@, body@.len() as int, ls, c, p),
        Stmt::Break | Stmt::Continue => clean(),
    }
}

/// What the first `n` statements of a body report, each in the scope of those before it.
pub open spec fn flow_diags(
    ss: Seq<Stmt>,
    n: int,
    ls: Map<Seq<char>, LocalView>,
    c: SiteView,
    p: XeresProgram,
) -> Seq<DiagView>
    decreases ss, n,
{
    if n <= 0 || n > ss.len() {
        clean()
    } else {
        flow_diags(ss, n - 1, ls, c, p) + stmt_diags(
            ss[n - 1],
            let_scope(ss, n - 1, ls, p),
            c,
            p,
        )
    }
}

/// What the bodies of the first `n` arms report.
pub open spec fn arms_diags(
    arms: Seq<MatchArm>,
    n: int,
    ls: Map<Seq<char>, LocalView>,
    c: SiteView,
    p: XeresProgram,
) -> Seq<DiagView>
    decreases arms, n,
{
    if n <= 0 || n > arms.len() {
        clean()
    } else {
        arms_diags(arms, n - 1, ls, c, p) + flow_diags(
            arms[n - 1].body@,
            arms[n - 1].body@.len() as int,
            ls,
            c,
            p,
        )
    }
}

fn check_arms(arms: &Vec<MatchArm>, ls: &Locals, c: &Site, p: &XeresProgram) -> (r: Report)
    ensures
        r@ == arms_diags(arms@, arms@.len() as int, ls@, c@, *p),
    decreases arms, 0int,
{
    let mut out = Report::new();
    let mut i: usize = 0;
    while i < arms.len()
        invariant
            i <= arms.len(),
            out@ == arms_diags(arms@, i as int, ls@, c@, *p),
        decreases arms.len() - i,
    {
        let d = check_flow_stmts(&arms[i].body, ls, c, p);
        out.append(d);
        i = i + 1;
    }
    out
}

fn check_stmt(s: &Stmt, ls: &Locals, c: &Site, p: &XeresProgram) -> (r: Report)
    ensures
        r@ == stmt_diags(*s, ls@, c@, *p),
    decreases s, 0int,
{
    match s {
        Stmt::Let { value, .. } => check_body_expr(value, ls, c, p),
        Stmt::Return(e) => {
            let mut out = check_body_expr(e, ls, c, p);
            out.append(check_return_type(e, ls, c, p));
            out
        },
        Stmt::Expr(e) => check_body_expr(e, ls, c, p),
        Stmt::Assign { value, .. } => check_body_expr(value, ls, c, p),
        Stmt::Try { body, handler } => {
            let mut out = if c.env == EnvModifier::Ui {
                Report::new()
            } else {
                messages::try_context(&c.name, c.line)
            };
            let b = check_flow_stmts(body, ls, c, p);
            out.append(b);
            let h = check_flow_stmts(handler, ls, c, p);
            out.append(h);
            out
        },
        Stmt::If { cond, then_body, else_body } => {
            let mut out = check_body_expr(cond, ls, c, p);
            let d = match non_bool_type(cond, ls, p) {
                Some(t) => messages::if_cond(&c.name, &t, c.line),
                None => Report::new(),
            };
            out.append(d);
            let t = check_flow_stmts(then_body, ls, c, p);
            out.append(t);
            let e = check_flow_stmts(else_body, ls, c, p);
            out.append(e);
            out
        },
        Stmt::For { var, iter, body } => {
            let mut out = check_body_expr(iter, ls, c, p);
            let inner = bind_copy(ls, var, element_type_of(iter, ls, p));
            let b = check_flow_stmts(body, &inner, c, p);
            out.append(b);
            out
        },
        Stmt::While { cond, body } => {
            let mut out = check_body_expr(cond, ls, c, p);
            let d = match non_bool_type(cond, ls, p) {
                Some(t) => messages::while_cond(&c.name, &t, c.line),
                None => Report::new(),
            };
            out.append(d);
            let b = check_flow_stmts(body, ls, c, p);
            out.append(b);
            out
        },
        Stmt::Match { scrutinee, arms } => {
            let mut out = check_body_expr(scrutinee, ls, c, p);
            out.append(check_match_patterns(scrutinee, arms, ls, p, c.line));
            let a = check_arms(arms, ls, c, p);
            out.append(a);
            out
        },
        Stmt::Transaction(body) => {
            let mut out = if c.env == EnvModifier::Server {
                Report::new()
            } else {
                messages::transaction_env(&c.name, env_label(c.env), c.line)
            };
            let b = check_flow_stmts(body, ls, c, p);
            out.append(b);
            out
        },
        Stmt::Break | Stmt::Continue => Report::new(),
    }
}

/// Checks the statements of a body, with these names in scope.
pub fn check_flow_stmts(ss: &Vec<Stmt>, ls: &Locals, c: &Site, p: &XeresProgram) -> (r: Report)
    ensures
        r@ == flow_diags(ss@, ss@.len() as int, ls@, c@, *p),
    decreases ss, 0int,
{
    let mut out = Report::new();
    let mut scope = copy_locals(ls);
    let mut i: usize = 0;
    while i < ss.len()
        invariant
            i <= ss.len(),
            scope@ == let_scope(ss@, i as int, ls@, *p),
            out@ == flow_diags(ss@, i as int, ls@, c@, *p),
        decreases ss.len() - i,
    {
        let d = check_stmt(&ss[i], &scope, c, p);
        out.append(d);
        bind_let(&ss[i], &mut scope, p);
        i = i + 1;
    }
    out
}

/// What a function's body belongs to.
pub open spec fn function_site(f: FunctionNode) -> SiteView {
    SiteView {
        env: f.env,
        name: f.name@,
        line: f.line as nat,
        ret: opt_text(f.return_type),
    }
}

/// What the body of a function reports.
pub open spec fn function_diags(f: FunctionNode, p: XeresProgram) -> Seq<DiagView> {
    flow_diags(
        f.body@,
        f.body@.len() as int,
        param_scope(f.params@, f.params@.len() as int),
        function_site(f),
        p,
    )
}

/// Checks the body of a function.
pub fn check_flow(f: &FunctionNode, p: &XeresProgram) -> (r: Report)
    ensures
        r@ == function_diags(*f, *p),
{
    let c = Site { env: f.env, name: f.name.clone(), line: f.line, ret: copy_opt(&f.return_type) };
    let ls = param_locals(&f.params);
    check_flow_stmts(&f.body, &ls, &c, p)
}

/// What an expression on a screen reports: the tier rules as in the browser, scope, and `await`.
pub open spec fn screen_expr_diags(
    e: Expr,
    ls: Map<Seq<char>, LocalView>,
    s: Seq<char>,
    line: nat,
    p: XeresProgram,
) -> Seq<DiagView> {
    expr_diags(e, ls, EnvModifier::Ui, s, line, p) + bindings_diags(e, ls, s, line, p)
        + await_diags(e, false, true, s, line, p)
}

/// Checks an expression on a screen.
pub fn check_screen_expr(e: &Expr, ls: &Locals, s: &str, line: usize, p: &XeresProgram) -> (r:
    Report)
    ensures
        r@ == screen_expr_diags(*e, ls@, s@, line as nat, *p),
{
    let mut out = check_expr(e, ls, EnvModifier::Ui, s, line, p);
    out.append(check_bindings(e, ls, s, line, p));
    out.append(check_await(e, false, true, s, line, p));
    out
}

/// R8 and R11: what is assigned to is in scope, and of the value's type.
pub open spec fn assign_diags(
    name: Seq<char>,
    value: Expr,
    ls: Map<Seq<char>, LocalView>,
    s: Seq<char>,
    line: nat,
    p: XeresProgram,
) -> Seq<DiagView> {
    if !ls.dom().contains(name) {
        messages::assign_unknown_diag(name, s, line)
    } else {
        match (ls[name].ty, type_of(value, ls, p)) {
            (Some(t), Some(actual)) => if fits(actual, t) {
                clean()
            } else {
                messages::assign_mismatch_diag(name, t, actual, line)
            },
            _ => clean(),
        }
    }
}

fn check_assign(
    name: &str,
    value: &Expr,
    ls: &Locals,
    s: &str,
    line: usize,
    p: &XeresProgram,
) -> (r: Report)
    ensures
        r@ == assign_diags(name@, *value, ls@, s@, line as nat, *p),
{
    match ls.get(name) {
        None => messages::assign_unknown(name, s, line),
        Some(l) => match &l.ty {
            Some(t) => match resolve_type(value, ls, p) {
                Some(actual) => if type_compatible(&actual, t) {
                    Report::new()
                } else {
                    messages::assign_mismatch(name, t, &actual, line)
                },
                None => Report::new(),
            },
            None => Report::new(),
        },
    }
}

/// What a statement of an event handler reports.
pub open spec fn handler_stmt_diags(
    st: Stmt,
    ls: Map<Seq<char>, LocalView>,
    s: Seq<char>,
    line: nat,
    p: XeresProgram,
) -> Seq<DiagView>
    decreases st, 0int,
{
    match st {
        Stmt::Let { value, .. } => screen_expr_diags(value, ls, s, line, p),
        Stmt::Assign { name, value } => screen_expr_diags(value, ls, s, line, p) + assign_diags(
            name@,
            value,
            ls,
            s,
            line,
            p,
        ),
        Stmt::Return(e) => screen_expr_diags(e, ls, s, line, p),
        Stmt::Expr(e) => screen_expr_diags(e, ls, s, line, p),
        Stmt::Try { body, handler } => handler_diags(body@, body@.len() as int, ls, s, line, p)
            + handler_diags(handler@, handler@.len() as int, ls, s, line, p),
        Stmt::If { cond, then_body, else_body } => screen_expr_diags(cond, ls, s, line, p)
            + (match not_bool(cond, ls, p) {
            Some(t) => messages::screen_if_cond_diag(s, t, line),
            None => clean(),
        }) + handler_diags(then_body@, then_body@.len() as int, ls, s, line, p) + handler_diags(
            else_body@,
            else_body@.len() as int,
            ls,
            s,
            line,
            p,
        ),
        Stmt::For { var, iter, body } => screen_expr_diags(iter, ls, s, line, p) + handler_diags(
            body@,
            body@.len() as int,
            ls.insert(var@, typed(element_type(iter, ls, p))),
            s,
            line,
            p,
        ),
        Stmt::While { cond, body } => screen_expr_diags(cond, ls, s, line, p) + handler_diags(
            body@,
            body@.len() as int,
            ls,
            s,
            line,
            p,
        ),
        Stmt::Match { scrutinee, arms } => screen_expr_diags(scrutinee, ls, s, line, p)
            + match_diags(scrutinee, arms@, ls, p, line) + handler_arms_diags(
            arms@,
            arms@.len() as int,
            ls,
            s,
            line,
            p,
        ),
        Stmt::Transaction(body) => messages::transaction_env_diag(
            s,
            env_text(EnvModifier::Ui),
            line,
        ) + handler_diags(body@, body@.len() as int, ls, s, line, p),
        Stmt::Break | Stmt::Continue => clean(),
    }
}

/// What the first `n` statements of an event handler report.
pub open spec fn handler_diags(
    ss: Seq<Stmt>,
    n: int,
    ls: Map<Seq<char>, LocalView>,
    s: Seq<char>,
    line: nat,
    p: XeresProgram,
) -> Seq<DiagView>
    decreases ss, n,
{
    if n <= 0 || n > ss.len() {
        clean()
    } else {
        handler_diags(ss, n - 1, ls, s, line, p) + handler_stmt_diags(
            ss[n - 1],
            let_scope(ss, n - 1, ls, p),
            s,
            line,
            p,
        )
    }
}

/// What the bodies of the first `n` arms of a handler's `match` report.
pub open spec fn handler_arms_diags(
    arms: Seq<MatchArm>,
    n: int,
    ls: Map<Seq<char>, LocalView>,
    s: Seq<char>,
    line: nat,
    p: XeresProgram,
) -> Seq<DiagView>
    decreases arms, n,
{
    if n <= 0 || n > arms.len() {
        clean()
    } else {
        handler_arms_diags(arms, n - 1, ls, s, line, p) + handler_diags(
            arms[n - 1].body@,
            arms[n - 1].body@.len() as int,
            ls,
            s,
            line,
            p,
        )
    }
}

fn check_handler_arms(
    arms: &Vec<MatchArm>,
    ls: &Locals,
    s: &str,
    line: usize,
    p: &XeresProgram,
) -> (r: Report)
    ensures
        r@ == handler_arms_diags(arms@, arms@.len() as int, ls@, s@, line as nat, *p),
    decreases arms, 0int,
{
    let mut out = Report::new();
    let mut i: usize = 0;
    while i < arms.len()
        invariant
            i <= arms.len(),
            out@ == handler_arms_diags(arms@, i as int, ls@, s@, line as nat, *p),
        decreases arms.len() - i,
    {
        let d = check_handler_block(&arms[i].body, ls, s, line, p);
        out.append(d);
        i = i + 1;
    }
    out
}

fn check_handler_stmt(st: &Stmt, ls: &Locals, s: &str, line: usize, p: &XeresProgram) -> (r: Report)
    ensures
        r@ == handler_stmt_diags(*st, ls@, s@, line as nat, *p),
    decreases st, 0int,
{
    match st {
        Stmt::Let { value, .. } => check_screen_expr(value, ls, s, line, p),
        Stmt::Assign { name, value } => {
            let mut out = check_screen_expr(value, ls, s, line, p);
            out.append(check_assign(name, value, ls, s, line, p));
            out
        },
        Stmt::Return(e) => check_screen_expr(e, ls, s, line, p),
        Stmt::Expr(e) => check_screen_expr(e, ls, s, line, p),
        Stmt::Try { body, handler } => {
            let mut out = check_handler_block(body, ls, s, line, p);
            let h = check_handler_block(handler, ls, s, line, p);
            out.append(h);
            out
        },
        Stmt::If { cond, then_body, else_body } => {
            let mut out = check_screen_expr(cond, ls, s, line, p);
            let d = match non_bool_type(cond, ls, p) {
                Some(t) => messages::screen_if_cond(s, &t, line),
                None => Report::new(),
            };
            out.append(d);
            let t = check_handler_block(then_body, ls, s, line, p);
            out.append(t);
            let e = check_handler_block(else_body, ls, s, line, p);
            out.append(e);
            out
        },
        Stmt::For { var, iter, body } => {
            let mut out = check_screen_expr(iter, ls, s, line, p);
            let inner = bind_copy(ls, var, element_type_of(iter, ls, p));
            let b = check_handler_block(body, &inner, s, line, p);
            out.append(b);
            out
        },
        Stmt::While { cond, body } => {
            let mut out = check_screen_expr(cond, ls, s, line, p);
            let b = check_handler_block(body, ls, s, line, p);
            out.append(b);
            out
        },
        Stmt::Match { scrutinee, arms } => {
            let mut out = check_screen_expr(scrutinee, ls, s, line, p);
            out.append(check_match_patterns(scrutinee, arms, ls, p, line));
            let a = check_handler_arms(arms, ls, s, line, p);
            out.append(a);
            out
        },
        Stmt::Transaction(body) => {
            let mut out = messages::transaction_env(s, env_label(EnvModifier::Ui), line);
            let b = check_handler_block(body, ls, s, line, p);
            out.append(b);
            out
        },
        Stmt::Break | Stmt::Continue => Report::new(),
    }
}

/// Checks the statements of an event handler on a screen.
pub fn check_handler_block(
    ss: &Vec<Stmt>,
    ls: &Locals,
    s: &str,
    line: usize,
    p: &XeresProgram,
) -> (r: Report)
    ensures
        r@ == handler_diags(ss@, ss@.len() as int, ls@, s@, line as nat, *p),
    decreases ss, 0int,
{
    let mut out = Report::new();
    let mut scope = copy_locals(ls);
    let mut i: usize = 0;
    while i < ss.len()
        invariant
            i <= ss.len(),
            scope@ == let_scope(ss@, i as int, ls@, *p),
            out@ == handler_diags(ss@, i as int, ls@, s@, line as nat, *p),
        decreases ss.len() - i,
    {
        let d = check_handler_stmt(&ss[i], &scope, s, line, p);
        out.append(d);
        bind_let(&ss[i], &mut scope, p);
        i = i + 1;
    }
    out
}

/// Whether one of the arguments behind the first uses `session`.
pub open spec fn binds_actor(args: Seq<Expr>) -> bool {
    exists|i: int| 1 <= i < args.len() && expr_uses_spec(#[trigger] args[i], Feature::Session)
}

fn has_actor(args: &Vec<Expr>) -> (r: bool)
    ensures
        r == binds_actor(args@),
{
    let mut i: usize = 1;
    while i < args.len()
        invariant
            1 <= i,
            forall|j: int|
                1 <= j < i && j < args.len() ==> !expr_uses_spec(
                    #[trigger] args@[j],
                    Feature::Session,
                ),
        decreases args.len() - i,
    {
        if expr_uses(&args[i], Feature::Session) {
            return true;
        }
        i = i + 1;
    }
    false
}

/// R25: a `db` query with parameters in an `auth` function binds the actor.
pub open spec fn actor_diags(e: Expr, name: Seq<char>, line: nat) -> Seq<DiagView>
    decreases e, 0int,
{
    match e {
        Expr::MethodCall { receiver, method, args } => (if is_ident_text(*receiver, "db"@) && (
        method@ == "query"@ || method@ == "query_one"@ || method@ == "exec"@) && args@.len() > 1
            && !binds_actor(args@) {
            messages::actor_scope_diag(method@, name, line)
        } else {
            clean()
        }) + actor_diags(*receiver, name, line) + actor_all(args@, args@.len() as int, name, line),
        Expr::Field { base, .. } => actor_diags(*base, name, line),
        Expr::Call { args, .. } => actor_all(args@, args@.len() as int, name, line),
        Expr::Unary { expr, .. } => actor_diags(*expr, name, line),
        Expr::Binary { left, right, .. } => actor_diags(*left, name, line) + actor_diags(
            *right,
            name,
            line,
        ),
        Expr::Declassify(i) => actor_diags(*i, name, line),
        Expr::Await(i) => actor_diags(*i, name, line),
        Expr::Raw(i) => actor_diags(*i, name, line),
        Expr::Record { fields, .. } => actor_fields(fields@, fields@.len() as int, name, line),
        Expr::ListLit(items) => actor_all(items@, items@.len() as int, name, line),
        Expr::Ternary { cond, yes, otherwise } => actor_diags(*cond, name, line) + actor_diags(
            *yes,
            name,
            line,
        ) + actor_diags(*otherwise, name, line),
        Expr::Range { start, end } => actor_diags(*start, name, line) + actor_diags(
            *end,
            name,
            line,
        ),
        Expr::Index { base, index } => actor_diags(*base, name, line) + actor_diags(
            *index,
            name,
            line,
        ),
        Expr::Closure { body, .. } => actor_diags(*body, name, line),
        Expr::Int(_)
        | Expr::Float(_)
        | Expr::Str(_)
        | Expr::Bool(_)
        | Expr::Ident(_)
        | Expr::NoneLit => clean(),
    }
}

/// R25 on the first `n` expressions.
pub open spec fn actor_all(es: Seq<Expr>, n: int, name: Seq<char>, line: nat) -> Seq<DiagView>
    decreases es, n,
{
    if n <= 0 || n > es.len() {
        clean()
    } else {
        actor_all(es, n - 1, name, line) + actor_diags(es[n - 1], name, line)
    }
}

/// R25 on the values of the first `n` fields.
pub open spec fn actor_fields(
    fs: Seq<(String, Expr)>,
    n: int,
    name: Seq<char>,
    line: nat,
) -> Seq<DiagView>
    decreases fs, n,
{
    if n <= 0 || n > fs.len() {
        clean()
    } else {
        actor_fields(fs, n - 1, name, line) + actor_diags(fs[n - 1].1, name, line)
    }
}

fn all_actor_scope(es: &Vec<Expr>, name: &str, line: usize) -> (r: Report)
    ensures
        r@ == actor_all(es@, es@.len() as int, name@, line as nat),
    decreases es, 0int,
{
    let mut out = Report::new();
    let mut i: usize = 0;
    while i < es.len()
        invariant
            i <= es.len(),
            out@ == actor_all(es@, i as int, name@, line as nat),
        decreases es.len() - i,
    {
        let d = expr_actor_scope(&es[i], name, line);
        out.append(d);
        i = i + 1;
    }
    out
}

fn fields_actor_scope(fs: &Vec<(String, Expr)>, name: &str, line: usize) -> (r: Report)
    ensures
        r@ == actor_fields(fs@, fs@.len() as int, name@, line as nat),
    decreases fs, 0int,
{
    let mut out = Report::new();
    let mut i: usize = 0;
    while i < fs.len()
        invariant
            i <= fs.len(),
            out@ == actor_fields(fs@, i as int, name@, line as nat),
        decreases fs.len() - i,
    {
        let d = expr_actor_scope(&fs[i].1, name, line);
        out.append(d);
        i = i + 1;
    }
    out
}

/// R25: checks the queries in an expression of an `auth` function.
pub fn expr_actor_scope(e: &Expr, name: &str, line: usize) -> (r: Report)
    ensures
        r@ == actor_diags(*e, name@, line as nat),
    decreases e, 0int,
{
    match e {
        Expr::MethodCall { receiver, method, args } => {
            let query = same(method, "query") || same(method, "query_one") || same(method, "exec");
            let mut out = if is_ident(receiver, "db") && query && args.len() > 1 && !has_actor(
                args,
            ) {
                messages::actor_scope(method, name, line)
            } else {
                Report::new()
            };
            let d = expr_actor_scope(receiver, name, line);
            out.append(d);
            let a = all_actor_scope(args, name, line);
            out.append(a);
            out
        },
        Expr::Field { base, .. } => expr_actor_scope(base, name, line),
        Expr::Call { args, .. } => all_actor_scope(args, name, line),
        Expr::Unary { expr, .. } => expr_actor_scope(expr, name, line),
        Expr::Binary { left, right, .. } => {
            let mut out = expr_actor_scope(left, name, line);
            let d = expr_actor_scope(right, name, line);
            out.append(d);
            out
        },
        Expr::Declassify(i) => expr_actor_scope(i, name, line),
        Expr::Await(i) => expr_actor_scope(i, name, line),
        Expr::Raw(i) => expr_actor_scope(i, name, line),
        Expr::Record { fields, .. } => fields_actor_scope(fields, name, line),
        Expr::ListLit(items) => all_actor_scope(items, name, line),
        Expr::Ternary { cond, yes, otherwise } => {
            let mut out = expr_actor_scope(cond, name, line);
            let y = expr_actor_scope(yes, name, line);
            out.append(y);
            let o = expr_actor_scope(otherwise, name, line);
            out.append(o);
            out
        },
        Expr::Range { start, end } => {
            let mut out = expr_actor_scope(start, name, line);
            let d = expr_actor_scope(end, name, line);
            out.append(d);
            out
        },
        Expr::Index { base, index } => {
            let mut out = expr_actor_scope(base, name, line);
            let d = expr_actor_scope(index, name, line);
            out.append(d);
            out
        },
        Expr::Closure { body, .. } => expr_actor_scope(body, name, line),
        Expr::Int(_)
        | Expr::Float(_)
        | Expr::Str(_)
        | Expr::Bool(_)
        | Expr::Ident(_)
        | Expr::NoneLit => Report::new(),
    }
}

/// R25 on a statement.
pub open spec fn actor_stmt(s: Stmt, name: Seq<char>, line: nat) -> Seq<DiagView>
    decreases s, 0int,
{
    match s {
        Stmt::Let { value, .. } => actor_diags(value, name, line),
        Stmt::Assign { value, .. } => actor_diags(value, name, line),
        Stmt::Return(value) => actor_diags(value, name, line),
        Stmt::Expr(value) => actor_diags(value, name, line),
        Stmt::Try { body, handler } => actor_stmts(body@, body@.len() as int, name, line)
            + actor_stmts(handler@, handler@.len() as int, name, line),
        Stmt::If { cond, then_body, else_body } => actor_diags(cond, name, line) + actor_stmts(
            then_body@,
            then_body@.len() as int,
            name,
            line,
        ) + actor_stmts(else_body@, else_body@.len() as int, name, line),
        Stmt::For { iter, body, .. } => actor_diags(iter, name, line) + actor_stmts(
            body@,
            body@.len() as int,
            name,
            line,
        ),
        Stmt::While { cond, body } => actor_diags(cond, name, line) + actor_stmts(
            body@,
            body@.len() as int,
            name,
            line,
        ),
        Stmt::Match { scrutinee, arms } => actor_diags(scrutinee, name, line) + actor_arms(
            arms@,
            arms@.len() as int,
            name,
            line,
        ),
        Stmt::Transaction(body) => actor_stmts(body@, body@.len() as int, name, line),
        Stmt::Break | Stmt::Continue => clean(),
    }
}

/// R25 on the first `n` statements.
pub open spec fn actor_stmts(ss: Seq<Stmt>, n: int, name: Seq<char>, line: nat) -> Seq<DiagView>
    decreases ss, n,
{
    if n <= 0 || n > ss.len() {
        clean()
    } else {
        actor_stmts(ss, n - 1, name, line) + actor_stmt(ss[n - 1], name, line)
    }
}

/// R25 on the bodies of the first `n` arms.
pub open spec fn actor_arms(arms: Seq<MatchArm>, n: int, name: Seq<char>, line: nat) -> Seq<DiagView>
    decreases arms, n,
{
    if n <= 0 || n > arms.len() {
        clean()
    } else {
        actor_arms(arms, n - 1, name, line) + actor_stmts(
            arms[n - 1].body@,
            arms[n - 1].body@.len() as int,
            name,
            line,
        )
    }
}

fn arms_actor_scope(arms: &Vec<MatchArm>, name: &str, line: usize) -> (r: Report)
    ensures
        r@ == actor_arms(arms@, arms@.len() as int, name@, line as nat),
    decreases arms, 0int,
{
    let mut out = Report::new();
    let mut i: usize = 0;
    while i < arms.len()
        invariant
            i <= arms.len(),
            out@ == actor_arms(arms@, i as int, name@, line as nat),
        decreases arms.len() - i,
    {
        let d = check_actor_scope(&arms[i].body, name, line);
        out.append(d);
        i = i + 1;
    }
    out
}

fn stmt_actor_scope(s: &Stmt, name: &str, line: usize) -> (r: Report)
    ensures
        r@ == actor_stmt(*s, name@, line as nat),
    decreases s, 0int,
{
    match s {
        Stmt::Let { value, .. } => expr_actor_scope(value, name, line),
        Stmt::Assign { value, .. } => expr_actor_scope(value, name, line),
        Stmt::Return(value) => expr_actor_scope(value, name, line),
        Stmt::Expr(value) => expr_actor_scope(value, name, line),
        Stmt::Try { body, handler } => {
            let mut out = check_actor_scope(body, name, line);
            let d = check_actor_scope(handler, name, line);
            out.append(d);
            out
        },
        Stmt::If { cond, then_body, else_body } => {
            let mut out = expr_actor_scope(cond, name, line);
            let t = check_actor_scope(then_body, name, line);
            out.append(t);
            let e = check_actor_scope(else_body, name, line);
            out.append(e);
            out
        },
        Stmt::For { iter, body, .. } => {
            let mut out = expr_actor_scope(iter, name, line);
            let d = check_actor_scope(body, name, line);
            out.append(d);
            out
        },
        Stmt::While { cond, body } => {
            let mut out = expr_actor_scope(cond, name, line);
            let d = check_actor_scope(body, name, line);
            out.append(d);
            out
        },
        Stmt::Match { scrutinee, arms } => {
            let mut out = expr_actor_scope(scrutinee, name, line);
            let d = arms_actor_scope(arms, name, line);
            out.append(d);
            out
        },
        Stmt::Transaction(body) => check_actor_scope(body, name, line),
        Stmt::Break | Stmt::Continue => Report::new(),
    }
}

/// R25: checks the queries in the body of an `auth` function.
pub fn check_actor_scope(ss: &Vec<Stmt>, name: &str, line: usize) -> (r: Report)
    ensures
        r@ == actor_stmts(ss@, ss@.len() as int, name@, line as nat),
    decreases ss, 0int,
{
    let mut out = Report::new();
    let mut i: usize = 0;
    while i < ss.len()
        invariant
            i <= ss.len(),
            out@ == actor_stmts(ss@, i as int, name@, line as nat),
        decreases ss.len() - i,
    {
        let d = stmt_actor_scope(&ss[i], name, line);
        out.append(d);
        i = i + 1;
    }
    out
}

} // verus!
