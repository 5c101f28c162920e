//! What a module reaches for is what stands in its bodies, wherever it stands, and a module that does
//! not declare it is refused.
use vstd::prelude::*;
use vstd::string::*;

use crate::ast::{Expr, Stmt, XeresProgram};
use crate::caps::{cap_text, expr_needs, node_needs, stmt_needs, stmts_need, Cap};
use crate::diagnostics::DiagView;
use crate::modules::{
    authority_diags, endpoint_names, entry_first, link_diags, module_needs, names_of, undeclared_diags,
    ModuleView,
};
use crate::syntax::{among_stmts, closes, in_body, inside, is_part, lemma_deep, Node};

verus! {

/// The word by which a module declares a capability.
pub open spec fn declared_by(c: Cap) -> Seq<char> {
    if c == Cap::Db {
        "db"@
    } else if c == Cap::Session {
        "session"@
    } else {
        "endpoint"@
    }
}

/// Whether a program declares a capability.
pub open spec fn declares(p: XeresProgram, c: Cap) -> bool {
    exists|k: int| 0 <= k < p.requires_caps@.len() && (#[trigger] p.requires_caps@[k])@ == declared_by(c)
}

/// Whether a node, by itself, is authority of a kind: a call on the database or a transaction, a call on
/// the session or a read of it, a call on an endpoint.
pub open spec fn is_authority(n: Node, c: Cap, eps: Seq<Seq<char>>) -> bool {
    match n {
        Node::Expr(Expr::MethodCall { receiver, .. }) => match *receiver {
            Expr::Ident(name) => {
                ||| c == Cap::Db && name@ == "db"@
                ||| c == Cap::Session && name@ == "session"@
                ||| c == Cap::Endpoint && name@ != "db"@ && name@ != "session"@ && eps.contains(name@)
            },
            _ => false,
        },
        Node::Expr(Expr::Field { base, .. }) => match *base {
            Expr::Ident(name) => c == Cap::Session && name@ == "session"@,
            _ => false,
        },
        Node::Stmt(Stmt::Transaction(_)) => c == Cap::Db,
        _ => false,
    }
}

spec fn needs(n: Node, c: Cap, eps: Seq<Seq<char>>) -> bool {
    match n {
        Node::Expr(e) => expr_needs(e, c, eps),
        Node::Stmt(s) => stmt_needs(s, c, eps),
    }
}

proof fn lemma_words()
    ensures
        "db"@ != "session"@,
{
    reveal_strlit("db");
    reveal_strlit("session");
    assert("db"@.len() != "session"@.len());
}

proof fn lemma_expr_closes(e: Expr, c: Cap, eps: Seq<Seq<char>>)
    ensures
        expr_needs(e, c, eps) <==> (is_authority(Node::Expr(e), c, eps) || exists|x: Node| #[trigger]
            is_part(Node::Expr(e), x) && needs(x, c, eps)),
{
    lemma_words();
    let n = Node::Expr(e);
    assert(is_authority(n, c, eps) == node_needs(e, c, eps));
    if expr_needs(e, c, eps) && !node_needs(e, c, eps) {
        match e {
            Expr::Field { base, .. } => assert(is_part(n, Node::Expr(*base))),
            Expr::Unary { expr, .. } => assert(is_part(n, Node::Expr(*expr))),
            Expr::Binary { left, right, .. } => {
                assert(is_part(n, Node::Expr(*left)));
                assert(is_part(n, Node::Expr(*right)));
            },
            Expr::Call { args, .. } => {
                let i = choose|i: int| 0 <= i < args@.len() && expr_needs(#[trigger] args@[i], c, eps);
                assert(is_part(n, Node::Expr(args@[i])));
            },
            Expr::MethodCall { receiver, args, .. } => {
                assert(is_part(n, Node::Expr(*receiver)));
                if !expr_needs(*receiver, c, eps) {
                    let i = choose|i: int|
                        0 <= i < args@.len() && expr_needs(#[trigger] args@[i], c, eps);
                    assert(is_part(n, Node::Expr(args@[i])));
                }
            },
            Expr::Declassify(inner) => assert(is_part(n, Node::Expr(*inner))),
            Expr::Raw(inner) => assert(is_part(n, Node::Expr(*inner))),
            Expr::Await(inner) => assert(is_part(n, Node::Expr(*inner))),
            Expr::Record { fields, .. } => {
                let i = choose|i: int|
                    0 <= i < fields@.len() && expr_needs((#[trigger] fields@[i]).1, c, eps);
                assert(is_part(n, Node::Expr(fields@[i].1)));
            },
            Expr::ListLit(items) => {
                let i = choose|i: int| 0 <= i < items@.len() && expr_needs(#[trigger] items@[i], c, eps);
                assert(is_part(n, Node::Expr(items@[i])));
            },
            Expr::Ternary { cond, yes, otherwise } => {
                assert(is_part(n, Node::Expr(*cond)));
                assert(is_part(n, Node::Expr(*yes)));
                assert(is_part(n, Node::Expr(*otherwise)));
            },
            Expr::Range { start, end } => {
                assert(is_part(n, Node::Expr(*start)));
                assert(is_part(n, Node::Expr(*end)));
            },
            Expr::Index { base, index } => {
                assert(is_part(n, Node::Expr(*base)));
                assert(is_part(n, Node::Expr(*index)));
            },
            Expr::Closure { body, .. } => assert(is_part(n, Node::Expr(*body))),
            _ => {},
        }
    }
}

proof fn lemma_list_needs(ss: Seq<Stmt>, x: Node, c: Cap, eps: Seq<Seq<char>>)
    requires
        among_stmts(ss, x),
        needs(x, c, eps),
    ensures
        stmts_need(ss, c, eps),
{
    let i = choose|i: int| 0 <= i < ss.len() && x == Node::Stmt(#[trigger] ss[i]);
    assert(stmt_needs(ss[i], c, eps));
}

proof fn lemma_needing(ss: Seq<Stmt>, c: Cap, eps: Seq<Seq<char>>) -> (x: Node)
    requires
        stmts_need(ss, c, eps),
    ensures
        among_stmts(ss, x),
        needs(x, c, eps),
{
    let i = choose|i: int| 0 <= i < ss.len() && stmt_needs(#[trigger] ss[i], c, eps);
    Node::Stmt(ss[i])
}

proof fn lemma_stmt_closes(s: Stmt, c: Cap, eps: Seq<Seq<char>>)
    ensures
        stmt_needs(s, c, eps) <==> (is_authority(Node::Stmt(s), c, eps) || exists|x: Node| #[trigger]
            is_part(Node::Stmt(s), x) && needs(x, c, eps)),
{
    let n = Node::Stmt(s);
    if stmt_needs(s, c, eps) && !is_authority(n, c, eps) {
        match s {
            Stmt::Let { value, .. } => assert(is_part(n, Node::Expr(value))),
            Stmt::Assign { value, .. } => assert(is_part(n, Node::Expr(value))),
            Stmt::Return(value) => assert(is_part(n, Node::Expr(value))),
            Stmt::Expr(value) => assert(is_part(n, Node::Expr(value))),
            Stmt::Try { body, handler } => {
                let x = if stmts_need(body@, c, eps) {
                    lemma_needing(body@, c, eps)
                } else {
                    lemma_needing(handler@, c, eps)
                };
                assert(is_part(n, x));
            },
            Stmt::If { cond, then_body, else_body } => {
                assert(is_part(n, Node::Expr(cond)));
                if !expr_needs(cond, c, eps) {
                    let x = if stmts_need(then_body@, c, eps) {
                        lemma_needing(then_body@, c, eps)
                    } else {
                        lemma_needing(else_body@, c, eps)
                    };
                    assert(is_part(n, x));
                }
            },
            Stmt::For { iter, body, .. } => {
                assert(is_part(n, Node::Expr(iter)));
                if !expr_needs(iter, c, eps) {
                    let x = lemma_needing(body@, c, eps);
                    assert(is_part(n, x));
                }
            },
            Stmt::While { cond, body } => {
                assert(is_part(n, Node::Expr(cond)));
                if !expr_needs(cond, c, eps) {
                    let x = lemma_needing(body@, c, eps);
                    assert(is_part(n, x));
                }
            },
            Stmt::Match { scrutinee, arms } => {
                assert(is_part(n, Node::Expr(scrutinee)));
                if !expr_needs(scrutinee, c, eps) {
                    let i = choose|i: int|
                        0 <= i < arms@.len() && stmts_need((#[trigger] arms@[i]).body@, c, eps);
                    let x = lemma_needing(arms@[i].body@, c, eps);
                    assert(is_part(n, x));
                }
            },
            Stmt::Transaction(body) => {
                let x = lemma_needing(body@, c, eps);
                assert(is_part(n, x));
            },
            _ => {},
        }
    }
    if exists|x: Node| #[trigger] is_part(n, x) && needs(x, c, eps) {
        let x = choose|x: Node| #[trigger] is_part(n, x) && needs(x, c, eps);
        match s {
            Stmt::Try { body, handler } => if among_stmts(body@, x) {
                lemma_list_needs(body@, x, c, eps);
            } else {
                lemma_list_needs(handler@, x, c, eps);
            },
            Stmt::If { cond, then_body, else_body } => if among_stmts(then_body@, x) {
                lemma_list_needs(then_body@, x, c, eps);
            } else if among_stmts(else_body@, x) {
                lemma_list_needs(else_body@, x, c, eps);
            },
            Stmt::For { body, .. } => if among_stmts(body@, x) {
                lemma_list_needs(body@, x, c, eps);
            },
            Stmt::While { body, .. } => if among_stmts(body@, x) {
                lemma_list_needs(body@, x, c, eps);
            },
            Stmt::Match { scrutinee, arms } => if x != Node::Expr(scrutinee) {
                let i = choose|i: int|
                    0 <= i < arms@.len() && among_stmts((#[trigger] arms@[i]).body@, x);
                lemma_list_needs(arms@[i].body@, x, c, eps);
            },
            Stmt::Transaction(body) => lemma_list_needs(body@, x, c, eps),
            _ => {},
        }
    }
}

proof fn lemma_needs_inside(n: Node, c: Cap, eps: Seq<Seq<char>>)
    ensures
        needs(n, c, eps) <==> exists|x: Node| #[trigger] inside(n, x) && is_authority(x, c, eps),
{
    let here = |m: Node| is_authority(m, c, eps);
    let deep = |m: Node| needs(m, c, eps);
    assert forall|m: Node| #[trigger] closes(m, here, deep) by {
        match m {
            Node::Expr(e) => lemma_expr_closes(e, c, eps),
            Node::Stmt(s) => lemma_stmt_closes(s, c, eps),
        }
        if exists|x: Node| #[trigger] is_part(m, x) && needs(x, c, eps) {
            let x = choose|x: Node| #[trigger] is_part(m, x) && needs(x, c, eps);
            assert(is_part(m, x) && deep(x));
        }
        if exists|x: Node| #[trigger] is_part(m, x) && deep(x) {
            let x = choose|x: Node| #[trigger] is_part(m, x) && deep(x);
            assert(is_part(m, x) && needs(x, c, eps));
        }
    }
    lemma_deep(n, here, deep);
    if exists|x: Node| #[trigger] inside(n, x) && here(x) {
        let x = choose|x: Node| #[trigger] inside(n, x) && here(x);
        assert(inside(n, x) && is_authority(x, c, eps));
    }
    if exists|x: Node| #[trigger] inside(n, x) && is_authority(x, c, eps) {
        let x = choose|x: Node| #[trigger] inside(n, x) && is_authority(x, c, eps);
        assert(inside(n, x) && here(x));
    }
}

/// A body reaches for a capability exactly where authority of that kind stands in it, in whatever
/// statement and at whatever depth.
pub proof fn law_body_reaches_for_what_stands_in_it(ss: Seq<Stmt>, c: Cap, eps: Seq<Seq<char>>)
    ensures
        stmts_need(ss, c, eps) <==> exists|x: Node| #[trigger] in_body(ss, x) && is_authority(x, c, eps),
{
    if stmts_need(ss, c, eps) {
        let i = choose|i: int| 0 <= i < ss.len() && stmt_needs(#[trigger] ss[i], c, eps);
        lemma_needs_inside(Node::Stmt(ss[i]), c, eps);
        let x = choose|x: Node| #[trigger] inside(Node::Stmt(ss[i]), x) && is_authority(x, c, eps);
        assert(in_body(ss, x));
    }
    if exists|x: Node| #[trigger] in_body(ss, x) && is_authority(x, c, eps) {
        let x = choose|x: Node| #[trigger] in_body(ss, x) && is_authority(x, c, eps);
        let i = choose|i: int| 0 <= i < ss.len() && inside(Node::Stmt(#[trigger] ss[i]), x);
        lemma_needs_inside(Node::Stmt(ss[i]), c, eps);
        assert(stmt_needs(ss[i], c, eps));
    }
}

/// Whether a name is that of an endpoint of one of the modules.
pub open spec fn is_endpoint(ms: Seq<ModuleView>, name: Seq<char>) -> bool {
    exists|m: int, k: int|
        0 <= m < ms.len() && 0 <= k < ms[m].program.endpoints@.len()
            && (#[trigger] ms[m].program.endpoints@[k]).name@ == name
}

proof fn lemma_name_listed(es: Seq<crate::ast::EndpointNode>, n: int, k: int)
    requires
        0 <= k < n <= es.len(),
    ensures
        names_of(es, n).contains(es[k].name@),
    decreases n,
{
    let prev = names_of(es, n - 1);
    let all = names_of(es, n);
    if k < n - 1 {
        lemma_name_listed(es, n - 1, k);
        let j = choose|j: int| 0 <= j < prev.len() && prev[j] == es[k].name@;
        assert(all[j] == es[k].name@);
    } else {
        assert(all[all.len() - 1] == es[k].name@);
    }
}

proof fn lemma_endpoint_listed(ms: Seq<ModuleView>, n: int, m: int, k: int)
    requires
        0 <= m < n <= ms.len(),
        0 <= k < ms[m].program.endpoints@.len(),
    ensures
        endpoint_names(ms, n).contains(ms[m].program.endpoints@[k].name@),
    decreases n,
{
    let name = ms[m].program.endpoints@[k].name@;
    let prev = endpoint_names(ms, n - 1);
    let es = ms[n - 1].program.endpoints@;
    let more = names_of(es, es.len() as int);
    let all = endpoint_names(ms, n);
    if m < n - 1 {
        lemma_endpoint_listed(ms, n - 1, m, k);
        let j = choose|j: int| 0 <= j < prev.len() && prev[j] == name;
        assert(all[j] == name);
    } else {
        lemma_name_listed(es, es.len() as int, k);
        let j = choose|j: int| 0 <= j < more.len() && more[j] == name;
        assert(all[prev.len() + j] == name);
    }
}

/// Whether a node, by itself, is authority of a kind in one of the modules of a program.
pub open spec fn uses_authority(ms: Seq<ModuleView>, n: Node, c: Cap) -> bool {
    match n {
        Node::Expr(Expr::MethodCall { receiver, .. }) => match *receiver {
            Expr::Ident(name) => {
                ||| c == Cap::Db && name@ == "db"@
                ||| c == Cap::Session && name@ == "session"@
                ||| c == Cap::Endpoint && name@ != "db"@ && name@ != "session"@ && is_endpoint(ms, name@)
            },
            _ => false,
        },
        Node::Expr(Expr::Field { base, .. }) => match *base {
            Expr::Ident(name) => c == Cap::Session && name@ == "session"@,
            _ => false,
        },
        Node::Stmt(Stmt::Transaction(_)) => c == Cap::Db,
        _ => false,
    }
}

/// Whether a list of findings holds one of a rule in a file.
pub open spec fn reports(ds: Seq<DiagView>, rule: Seq<char>, file: Seq<char>) -> bool {
    exists|i: int| 0 <= i < ds.len() && (#[trigger] ds[i]).rule == rule && ds[i].file == file
}

proof fn lemma_reports_part(a: Seq<DiagView>, b: Seq<DiagView>, rule: Seq<char>, file: Seq<char>)
    requires
        reports(a, rule, file) || reports(b, rule, file),
    ensures
        reports(a + b, rule, file),
{
    let all = a + b;
    if reports(a, rule, file) {
        let i = choose|i: int| 0 <= i < a.len() && (#[trigger] a[i]).rule == rule && a[i].file == file;
        assert(all[i] == a[i]);
    } else {
        let i = choose|i: int| 0 <= i < b.len() && (#[trigger] b[i]).rule == rule && b[i].file == file;
        assert(all[a.len() + i] == b[i]);
    }
}

proof fn lemma_authority_reported(
    ms: Seq<ModuleView>,
    n: int,
    entry: Seq<char>,
    eps: Seq<Seq<char>>,
    i: int,
    c: Cap,
)
    requires
        0 <= i < n <= ms.len(),
        ms[i].name != entry,
        reports(undeclared_diags(ms[i], c, eps), "R34 module-capability"@, ms[i].file),
    ensures
        reports(authority_diags(ms, n, entry, eps), "R34 module-capability"@, ms[i].file),
    decreases n,
{
    let rule = "R34 module-capability"@;
    let f = ms[i].file;
    if i < n - 1 {
        lemma_authority_reported(ms, n - 1, entry, eps, i, c);
    }
    if ms[n - 1].name != entry {
        let a = authority_diags(ms, n - 1, entry, eps);
        let d = undeclared_diags(ms[n - 1], Cap::Db, eps);
        let s = undeclared_diags(ms[n - 1], Cap::Session, eps);
        let e = undeclared_diags(ms[n - 1], Cap::Endpoint, eps);
        if reports(a, rule, f) || reports(d, rule, f) {
            lemma_reports_part(a, d, rule, f);
        }
        if reports(a + d, rule, f) || reports(s, rule, f) {
            lemma_reports_part(a + d, s, rule, f);
        }
        lemma_reports_part(a + d + s, e, rule, f);
    }
}

/// Where authority stands in a function of a module other than the entry, in any statement and at any
/// depth, and the module does not declare it, the modules are not merged: R34 is reported of its file.
pub proof fn law_authority_must_be_declared(ms: Seq<ModuleView>, i: int, f: int, x: Node, c: Cap)
    requires
        0 <= i < ms.len(),
        ms[i].name != ms.last().name,
        0 <= f < ms[i].program.functions@.len(),
        in_body(ms[i].program.functions@[f].body@, x),
        uses_authority(ms, x, c),
        !declares(ms[i].program, c),
    ensures
        reports(link_diags(ms), "R34 module-capability"@, ms[i].file),
{
    let rule = "R34 module-capability"@;
    let es = entry_first(ms);
    let eps = endpoint_names(es, es.len() as int);
    assert(es[i + 1] == ms[i]);
    let body = ms[i].program.functions@[f].body@;
    assert(is_authority(x, c, eps)) by {
        if c == Cap::Endpoint {
            let name = x->Expr_0->MethodCall_receiver->Ident_0@;
            let (m, k) = choose|m: int, k: int|
                0 <= m < ms.len() && 0 <= k < ms[m].program.endpoints@.len()
                    && (#[trigger] ms[m].program.endpoints@[k]).name@ == name;
            if m == ms.len() - 1 {
                assert(es[0] == ms[m]);
                lemma_endpoint_listed(es, es.len() as int, 0, k);
            } else {
                assert(es[m + 1] == ms[m]);
                lemma_endpoint_listed(es, es.len() as int, m + 1, k);
            }
        }
    }
    law_body_reaches_for_what_stands_in_it(body, c, eps);
    assert(module_needs(ms[i].program, c, eps));
    assert(cap_text(c) == declared_by(c));
    let found = undeclared_diags(ms[i], c, eps);
    assert(found[0].rule == rule && found[0].file == ms[i].file);
    lemma_authority_reported(es, es.len() as int, ms.last().name, eps, i + 1, c);
    let d = crate::modules::directory_of(es);
    let a = crate::modules::requires_diags(ms, ms.len() as int) + crate::modules::all_grants_diags(
        ms,
        ms.len() as int,
    );
    let b = authority_diags(es, es.len() as int, ms.last().name, eps);
    let g = crate::modules::all_function_diags(es, es.len() as int, d);
    let h = crate::modules::all_screen_diags(es, es.len() as int, d);
    let k = crate::modules::all_api_diags(es, es.len() as int, d);
    lemma_reports_part(a, b, rule, ms[i].file);
    lemma_reports_part(a + b, g, rule, ms[i].file);
    lemma_reports_part(a + b + g, h, rule, ms[i].file);
    lemma_reports_part(a + b + g + h, k, rule, ms[i].file);
}

/// A capability is not asked for in vain: a module in whose functions no authority of a kind stands, and
/// which declares no endpoint, does not have to declare that kind.
pub proof fn law_no_authority_needs_no_declaration(m: ModuleView, c: Cap, eps: Seq<Seq<char>>)
    requires
        m.program.endpoints@.len() == 0,
        forall|f: int, x: Node|
            0 <= f < m.program.functions@.len() && #[trigger] in_body(
                m.program.functions@[f].body@,
                x,
            ) ==> !is_authority(x, c, eps),
    ensures
        undeclared_diags(m, c, eps).len() == 0,
{
    let p = m.program;
    assert forall|f: int| 0 <= f < p.functions@.len() implies !stmts_need(
        (#[trigger] p.functions@[f]).body@,
        c,
        eps,
    ) by {
        law_body_reaches_for_what_stands_in_it(p.functions@[f].body@, c, eps);
    }
}

} // verus!
