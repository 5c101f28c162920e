//! The capabilities that a module reaches for: `db`, `session` and `endpoint`.
use vstd::prelude::*;
use vstd::string::*;

use crate::ast::{Expr, MatchArm, Stmt};
use crate::text::{same, Parts};

verus! {

/// A capability that a module declares and an import grants.
#[derive(Debug, Clone, Copy, PartialEq, Eq, Structural)]
pub enum Cap {
    Db,
    Session,
    Endpoint,
}

/// The name of a capability.
pub open spec fn cap_text(c: Cap) -> Seq<char> {
    match c {
        Cap::Db => "db"@,
        Cap::Session => "session"@,
        Cap::Endpoint => "endpoint"@,
    }
}

/// The name of a capability.
pub fn cap_label(c: Cap) -> (r: &'static str)
    ensures
        r@ == cap_text(c),
{
    match c {
        Cap::Db => "db",
        Cap::Session => "session",
        Cap::Endpoint => "endpoint",
    }
}

/// The capability that a call on a name reaches for; `endpoints` holds the endpoints' names.
pub open spec fn name_cap(n: Seq<char>, endpoints: Seq<Seq<char>>) -> Option<Cap> {
    if n == "db"@ {
        Some(Cap::Db)
    } else if n == "session"@ {
        Some(Cap::Session)
    } else if endpoints.contains(n) {
        Some(Cap::Endpoint)
    } else {
        None
    }
}

/// Whether an expression node itself reaches for a capability.
pub open spec fn node_needs(e: Expr, c: Cap, endpoints: Seq<Seq<char>>) -> bool {
    match e {
        Expr::Field { base, .. } => *base is Ident && base->Ident_0@ == "session"@ && c
            == Cap::Session,
        Expr::MethodCall { receiver, .. } => *receiver is Ident && name_cap(
            receiver->Ident_0@,
            endpoints,
        ) == Some(c),
        _ => false,
    }
}

/// Whether an expression reaches for a capability.
pub open spec fn expr_needs(e: Expr, c: Cap, endpoints: Seq<Seq<char>>) -> bool
    decreases e,
{
    node_needs(e, c, endpoints) || match e {
        Expr::Field { base, .. } => expr_needs(*base, c, endpoints),
        Expr::MethodCall { receiver, args, .. } => expr_needs(*receiver, c, endpoints) || exists|
            i: int,
        |
            0 <= i < args@.len() && expr_needs(#[trigger] args@[i], c, endpoints),
        Expr::Call { args, .. } => exists|i: int|
            0 <= i < args@.len() && expr_needs(#[trigger] args@[i], c, endpoints),
        Expr::Unary { expr, .. } => expr_needs(*expr, c, endpoints),
        Expr::Declassify(inner) => expr_needs(*inner, c, endpoints),
        Expr::Raw(inner) => expr_needs(*inner, c, endpoints),
        Expr::Await(inner) => expr_needs(*inner, c, endpoints),
        Expr::Binary { left, right, .. } => expr_needs(*left, c, endpoints) || expr_needs(
            *right,
            c,
            endpoints,
        ),
        Expr::Record { fields, .. } => exists|i: int|
            0 <= i < fields@.len() && expr_needs((#[trigger] fields@[i]).1, c, endpoints),
        Expr::ListLit(items) => exists|i: int|
            0 <= i < items@.len() && expr_needs(#[trigger] items@[i], c, endpoints),
        Expr::Ternary { cond, yes, otherwise } => expr_needs(*cond, c, endpoints) || expr_needs(
            *yes,
            c,
            endpoints,
        ) || expr_needs(*otherwise, c, endpoints),
        Expr::Range { start, end } => expr_needs(*start, c, endpoints) || expr_needs(
            *end,
            c,
            endpoints,
        ),
        Expr::Closure { body, .. } => expr_needs(*body, c, endpoints),
        Expr::Index { base, index } => expr_needs(*base, c, endpoints) || expr_needs(
            *index,
            c,
            endpoints,
        ),
        Expr::Int(_)
        | Expr::Float(_)
        | Expr::Str(_)
        | Expr::Bool(_)
        | Expr::Ident(_)
        | Expr::NoneLit => false,
    }
}

/// Whether a statement reaches for a capability. A transaction is itself `db` authority.
pub open spec fn stmt_needs(s: Stmt, c: Cap, endpoints: Seq<Seq<char>>) -> bool
    decreases s,
{
    match s {
        Stmt::Let { value, .. } => expr_needs(value, c, endpoints),
        Stmt::Assign { value, .. } => expr_needs(value, c, endpoints),
        Stmt::Return(value) => expr_needs(value, c, endpoints),
        Stmt::Expr(value) => expr_needs(value, c, endpoints),
        Stmt::Try { body, handler } => stmts_need(body@, c, endpoints) || stmts_need(
            handler@,
            c,
            endpoints,
        ),
        Stmt::If { cond, then_body, else_body } => expr_needs(cond, c, endpoints) || stmts_need(
            then_body@,
            c,
            endpoints,
        ) || stmts_need(else_body@, c, endpoints),
        Stmt::For { iter, body, .. } => expr_needs(iter, c, endpoints) || stmts_need(
            body@,
            c,
            endpoints,
        ),
        Stmt::While { cond, body } => expr_needs(cond, c, endpoints) || stmts_need(
            body@,
            c,
            endpoints,
        ),
        Stmt::Match { scrutinee, arms } => expr_needs(scrutinee, c, endpoints) || exists|i: int|
            0 <= i < arms@.len() && stmts_need((#[trigger] arms@[i]).body@, c, endpoints),
        Stmt::Transaction(body) => c == Cap::Db || stmts_need(body@, c, endpoints),
        Stmt::Break | Stmt::Continue => false,
    }
}

/// Whether one of the statements reaches for a capability.
pub open spec fn stmts_need(ss: Seq<Stmt>, c: Cap, endpoints: Seq<Seq<char>>) -> bool
    decreases ss,
{
    exists|i: int| 0 <= i < ss.len() && stmt_needs(#[trigger] ss[i], c, endpoints)
}

fn node_reaches(e: &Expr, c: Cap, endpoints: &Parts) -> (r: bool)
    ensures
        r == node_needs(*e, c, endpoints@),
{
    match e {
        Expr::Field { base, .. } => match &**base {
            Expr::Ident(n) => same(n, "session") && c == Cap::Session,
            _ => false,
        },
        Expr::MethodCall { receiver, .. } => match &**receiver {
            Expr::Ident(n) => if same(n, "db") {
                c == Cap::Db
            } else if same(n, "session") {
                c == Cap::Session
            } else {
                endpoints.contains(n) && c == Cap::Endpoint
            },
            _ => false,
        },
        _ => false,
    }
}

fn any_reaches(es: &Vec<Expr>, c: Cap, endpoints: &Parts) -> (r: bool)
    ensures
        r == (exists|i: int| 0 <= i < es@.len() && expr_needs(#[trigger] es@[i], c, endpoints@)),
    decreases es,
{
    let mut i: usize = 0;
    while i < es.len()
        invariant
            i <= es.len(),
            forall|j: int| 0 <= j < i ==> !expr_needs(#[trigger] es@[j], c, endpoints@),
        decreases es.len() - i,
    {
        if expr_reaches(&es[i], c, endpoints) {
            return true;
        }
        i = i + 1;
    }
    false
}

fn any_field_reaches(fs: &Vec<(String, Expr)>, c: Cap, endpoints: &Parts) -> (r: bool)
    ensures
        r == (exists|i: int|
            0 <= i < fs@.len() && expr_needs((#[trigger] fs@[i]).1, c, endpoints@)),
    decreases fs,
{
    let mut i: usize = 0;
    while i < fs.len()
        invariant
            i <= fs.len(),
            forall|j: int| 0 <= j < i ==> !expr_needs((#[trigger] fs@[j]).1, c, endpoints@),
        decreases fs.len() - i,
    {
        if expr_reaches(&fs[i].1, c, endpoints) {
            return true;
        }
        i = i + 1;
    }
    false
}

/// Whether an expression reaches for a capability.
pub fn expr_reaches(e: &Expr, c: Cap, endpoints: &Parts) -> (r: bool)
    ensures
        r == expr_needs(*e, c, endpoints@),
    decreases e,
{
    if node_reaches(e, c, endpoints) {
        return true;
    }
    match e {
        Expr::Field { base, .. } => expr_reaches(base, c, endpoints),
        Expr::MethodCall { receiver, args, .. } => expr_reaches(receiver, c, endpoints)
            || any_reaches(args, c, endpoints),
        Expr::Call { args, .. } => any_reaches(args, c, endpoints),
        Expr::Unary { expr, .. } => expr_reaches(expr, c, endpoints),
        Expr::Declassify(inner) => expr_reaches(inner, c, endpoints),
        Expr::Raw(inner) => expr_reaches(inner, c, endpoints),
        Expr::Await(inner) => expr_reaches(inner, c, endpoints),
        Expr::Binary { left, right, .. } => expr_reaches(left, c, endpoints) || expr_reaches(
            right,
            c,
            endpoints,
        ),
        Expr::Record { fields, .. } => any_field_reaches(fields, c, endpoints),
        Expr::ListLit(items) => any_reaches(items, c, endpoints),
        Expr::Ternary { cond, yes, otherwise } => expr_reaches(cond, c, endpoints)
            || expr_reaches(yes, c, endpoints) || expr_reaches(otherwise, c, endpoints),
        Expr::Range { start, end } => expr_reaches(start, c, endpoints) || expr_reaches(
            end,
            c,
            endpoints,
        ),
        Expr::Closure { body, .. } => expr_reaches(body, c, endpoints),
        Expr::Index { base, index } => expr_reaches(base, c, endpoints) || expr_reaches(
            index,
            c,
            endpoints,
        ),
        Expr::Int(_)
        | Expr::Float(_)
        | Expr::Str(_)
        | Expr::Bool(_)
        | Expr::Ident(_)
        | Expr::NoneLit => false,
    }
}

fn any_arm_reaches(arms: &Vec<MatchArm>, c: Cap, endpoints: &Parts) -> (r: bool)
    ensures
        r == (exists|i: int|
            0 <= i < arms@.len() && stmts_need((#[trigger] arms@[i]).body@, c, endpoints@)),
    decreases arms,
{
    let mut i: usize = 0;
    while i < arms.len()
        invariant
            i <= arms.len(),
            forall|j: int| 0 <= j < i ==> !stmts_need((#[trigger] arms@[j]).body@, c, endpoints@),
        decreases arms.len() - i,
    {
        if stmts_reach(&arms[i].body, c, endpoints) {
            return true;
        }
        i = i + 1;
    }
    false
}

fn stmt_reaches(s: &Stmt, c: Cap, endpoints: &Parts) -> (r: bool)
    ensures
        r == stmt_needs(*s, c, endpoints@),
    decreases s,
{
    match s {
        Stmt::Let { value, .. } => expr_reaches(value, c, endpoints),
        Stmt::Assign { value, .. } => expr_reaches(value, c, endpoints),
        Stmt::Return(value) => expr_reaches(value, c, endpoints),
        Stmt::Expr(value) => expr_reaches(value, c, endpoints),
        Stmt::Try { body, handler } => stmts_reach(body, c, endpoints) || stmts_reach(
            handler,
            c,
            endpoints,
        ),
        Stmt::If { cond, then_body, else_body } => expr_reaches(cond, c, endpoints)
            || stmts_reach(then_body, c, endpoints) || stmts_reach(else_body, c, endpoints),
        Stmt::For { iter, body, .. } => expr_reaches(iter, c, endpoints) || stmts_reach(
            body,
            c,
            endpoints,
        ),
        Stmt::While { cond, body } => expr_reaches(cond, c, endpoints) || stmts_reach(
            body,
            c,
            endpoints,
        ),
        Stmt::Match { scrutinee, arms } => expr_reaches(scrutinee, c, endpoints)
            || any_arm_reaches(arms, c, endpoints),
        Stmt::Transaction(body) => c == Cap::Db || stmts_reach(body, c, endpoints),
        Stmt::Break | Stmt::Continue => false,
    }
}

/// Whether one of the statements reaches for a capability.
pub fn stmts_reach(ss: &Vec<Stmt>, c: Cap, endpoints: &Parts) -> (r: bool)
    ensures
        r == stmts_need(ss@, c, endpoints@),
    decreases ss,
{
    let mut i: usize = 0;
    while i < ss.len()
        invariant
            i <= ss.len(),
            forall|j: int| 0 <= j < i ==> !stmt_needs(#[trigger] ss@[j], c, endpoints@),
        decreases ss.len() - i,
    {
        if stmt_reaches(&ss[i], c, endpoints) {
            return true;
        }
        i = i + 1;
    }
    false
}

/// The capabilities that a body reaches for.
pub struct Caps {
    pub db: bool,
    pub session: bool,
    pub endpoint: bool,
}

/// Whether a capability is among those that a body reaches for.
pub open spec fn has_cap(caps: Caps, c: Cap) -> bool {
    match c {
        Cap::Db => caps.db,
        Cap::Session => caps.session,
        Cap::Endpoint => caps.endpoint,
    }
}

/// The capabilities that the statements of a body reach for.
pub fn caps_used_in_stmts(ss: &Vec<Stmt>, endpoints: &Parts) -> (r: Caps)
    ensures
        forall|c: Cap| #[trigger] has_cap(r, c) == stmts_need(ss@, c, endpoints@),
{
    Caps {
        db: stmts_reach(ss, Cap::Db, endpoints),
        session: stmts_reach(ss, Cap::Session, endpoints),
        endpoint: stmts_reach(ss, Cap::Endpoint, endpoints),
    }
}

} // verus!
