//! A program carries what it uses: a feature is found exactly where a use of it stands, at whatever depth.
use vstd::prelude::*;
use vstd::string::*;

use crate::ast::{Expr, Stmt, XeresProgram};
use crate::syntax::{among_stmts, closes, in_body, inside, is_part, lemma_deep, Node};
use crate::text::has_prefix;
use crate::uses::{
    expr_uses_spec, functions_use_spec, node_uses, stmt_uses_spec, stmts_use_spec, Feature,
};

verus! {

/// Whether a node, by itself, is a use of a feature.
pub open spec fn is_use(n: Node, f: Feature) -> bool {
    match n {
        Node::Expr(Expr::Call { callee, .. }) => {
            ||| f == Feature::Auth && (callee@ == "hash"@ || callee@ == "verify"@)
            ||| f == Feature::Decimal && exists|rest: Seq<char>| callee@ == #[trigger] ("__dec_"@ + rest)
        },
        Node::Expr(Expr::MethodCall { receiver, .. }) => match *receiver {
            Expr::Ident(name) => (f == Feature::Db && name@ == "db"@) || (f == Feature::Session && name@
                == "session"@),
            _ => false,
        },
        Node::Expr(Expr::Field { base, .. }) => match *base {
            Expr::Ident(name) => f == Feature::Session && name@ == "session"@,
            _ => false,
        },
        Node::Expr(Expr::Await(_)) => f == Feature::Await,
        _ => false,
    }
}

proof fn lemma_use(e: Expr, f: Feature)
    ensures
        is_use(Node::Expr(e), f) == node_uses(e, f),
{
    if let Expr::Call { callee, .. } = e {
        let word = "__dec_"@;
        if has_prefix(callee@, word) {
            let rest = callee@.subrange(word.len() as int, callee@.len() as int);
            assert(callee@.subrange(0, word.len() as int) == word);
            assert(callee@ =~= word + rest);
        }
        if exists|rest: Seq<char>| callee@ == #[trigger] (word + rest) {
            let rest = choose|rest: Seq<char>| callee@ == #[trigger] (word + rest);
            assert((word + rest).subrange(0, word.len() as int) =~= word);
        }
    }
}

spec fn uses(n: Node, f: Feature) -> bool {
    match n {
        Node::Expr(e) => expr_uses_spec(e, f),
        Node::Stmt(s) => stmt_uses_spec(s, f),
    }
}

proof fn lemma_expr_closes(e: Expr, f: Feature)
    ensures
        expr_uses_spec(e, f) <==> (is_use(Node::Expr(e), f) || exists|x: Node| #[trigger]
            is_part(Node::Expr(e), x) && uses(x, f)),
{
    let n = Node::Expr(e);
    lemma_use(e, f);
    if expr_uses_spec(e, f) && !node_uses(e, f) {
        match e {
            Expr::Field { base, .. } => assert(is_part(n, Node::Expr(*base))),
            Expr::Unary { expr, .. } => assert(is_part(n, Node::Expr(*expr))),
            Expr::Binary { left, right, .. } => {
                assert(is_part(n, Node::Expr(*left)));
                assert(is_part(n, Node::Expr(*right)));
            },
            Expr::Call { args, .. } => {
                let i = choose|i: int| 0 <= i < args@.len() && expr_uses_spec(#[trigger] args@[i], f);
                assert(is_part(n, Node::Expr(args@[i])));
            },
            Expr::MethodCall { receiver, args, .. } => {
                assert(is_part(n, Node::Expr(*receiver)));
                if !expr_uses_spec(*receiver, f) {
                    let i = choose|i: int|
                        0 <= i < args@.len() && expr_uses_spec(#[trigger] args@[i], f);
                    assert(is_part(n, Node::Expr(args@[i])));
                }
            },
            Expr::Declassify(inner) => assert(is_part(n, Node::Expr(*inner))),
            Expr::Raw(inner) => assert(is_part(n, Node::Expr(*inner))),
            Expr::Await(inner) => assert(is_part(n, Node::Expr(*inner))),
            Expr::Record { fields, .. } => {
                let i = choose|i: int|
                    0 <= i < fields@.len() && expr_uses_spec((#[trigger] fields@[i]).1, f);
                assert(is_part(n, Node::Expr(fields@[i].1)));
            },
            Expr::ListLit(items) => {
                let i = choose|i: int| 0 <= i < items@.len() && expr_uses_spec(#[trigger] items@[i], f);
                assert(is_part(n, Node::Expr(items@[i])));
            },
            Expr::Ternary { cond, yes, otherwise } => {
                assert(is_part(n, Node::Expr(*cond)));
                assert(is_part(n, Node::Expr(*yes)));
                assert(is_part(n, Node::Expr(*otherwise)));
            },
            Expr::Range { start, end } => {
                assert(is_part(n, Node::Expr(*start)));
                assert(is_part(n, Node::Expr(*end)));
            },
            Expr::Index { base, index } => {
                assert(is_part(n, Node::Expr(*base)));
                assert(is_part(n, Node::Expr(*index)));
            },
            Expr::Closure { body, .. } => assert(is_part(n, Node::Expr(*body))),
            _ => {},
        }
    }
}

proof fn lemma_list_uses(ss: Seq<Stmt>, x: Node, f: Feature)
    requires
        among_stmts(ss, x),
        uses(x, f),
    ensures
        stmts_use_spec(ss, f),
{
    let i = choose|i: int| 0 <= i < ss.len() && x == Node::Stmt(#[trigger] ss[i]);
    assert(stmt_uses_spec(ss[i], f));
}

proof fn lemma_using(ss: Seq<Stmt>, f: Feature) -> (x: Node)
    requires
        stmts_use_spec(ss, f),
    ensures
        among_stmts(ss, x),
        uses(x, f),
{
    let i = choose|i: int| 0 <= i < ss.len() && stmt_uses_spec(#[trigger] ss[i], f);
    Node::Stmt(ss[i])
}

proof fn lemma_stmt_closes(s: Stmt, f: Feature)
    ensures
        stmt_uses_spec(s, f) <==> (is_use(Node::Stmt(s), f) || exists|x: Node| #[trigger]
            is_part(Node::Stmt(s), x) && uses(x, f)),
{
    let n = Node::Stmt(s);
    if stmt_uses_spec(s, f) && !is_use(n, f) {
        match s {
            Stmt::Let { value, .. } => assert(is_part(n, Node::Expr(value))),
            Stmt::Assign { value, .. } => assert(is_part(n, Node::Expr(value))),
            Stmt::Return(value) => assert(is_part(n, Node::Expr(value))),
            Stmt::Expr(value) => assert(is_part(n, Node::Expr(value))),
            Stmt::Try { body, handler } => {
                let x = if stmts_use_spec(body@, f) {
                    lemma_using(body@, f)
                } else {
                    lemma_using(handler@, f)
                };
                assert(is_part(n, x));
            },
            Stmt::If { cond, then_body, else_body } => {
                assert(is_part(n, Node::Expr(cond)));
                if !expr_uses_spec(cond, f) {
                    let x = if stmts_use_spec(then_body@, f) {
                        lemma_using(then_body@, f)
                    } else {
                        lemma_using(else_body@, f)
                    };
                    assert(is_part(n, x));
                }
            },
            Stmt::For { iter, body, .. } => {
                assert(is_part(n, Node::Expr(iter)));
                if !expr_uses_spec(iter, f) {
                    let x = lemma_using(body@, f);
                    assert(is_part(n, x));
                }
            },
            Stmt::While { cond, body } => {
                assert(is_part(n, Node::Expr(cond)));
                if !expr_uses_spec(cond, f) {
                    let x = lemma_using(body@, f);
                    assert(is_part(n, x));
                }
            },
            Stmt::Match { scrutinee, arms } => {
                assert(is_part(n, Node::Expr(scrutinee)));
                if !expr_uses_spec(scrutinee, f) {
                    let i = choose|i: int|
                        0 <= i < arms@.len() && stmts_use_spec((#[trigger] arms@[i]).body@, f);
                    let x = lemma_using(arms@[i].body@, f);
                    assert(is_part(n, x));
                }
            },
            Stmt::Transaction(body) => {
                let x = lemma_using(body@, f);
                assert(is_part(n, x));
            },
            _ => {},
        }
    }
    if exists|x: Node| #[trigger] is_part(n, x) && uses(x, f) {
        let x = choose|x: Node| #[trigger] is_part(n, x) && uses(x, f);
        match s {
            Stmt::Try { body, handler } => if among_stmts(body@, x) {
                lemma_list_uses(body@, x, f);
            } else {
                lemma_list_uses(handler@, x, f);
            },
            Stmt::If { cond, then_body, else_body } => if among_stmts(then_body@, x) {
                lemma_list_uses(then_body@, x, f);
            } else if among_stmts(else_body@, x) {
                lemma_list_uses(else_body@, x, f);
            },
            Stmt::For { body, .. } => if among_stmts(body@, x) {
                lemma_list_uses(body@, x, f);
            },
            Stmt::While { body, .. } => if among_stmts(body@, x) {
                lemma_list_uses(body@, x, f);
            },
            Stmt::Match { scrutinee, arms } => if x != Node::Expr(scrutinee) {
                let i = choose|i: int|
                    0 <= i < arms@.len() && among_stmts((#[trigger] arms@[i]).body@, x);
                lemma_list_uses(arms@[i].body@, x, f);
            },
            Stmt::Transaction(body) => lemma_list_uses(body@, x, f),
            _ => {},
        }
    }
}

proof fn lemma_uses_inside(n: Node, f: Feature)
    ensures
        uses(n, f) <==> exists|x: Node| #[trigger] inside(n, x) && is_use(x, f),
{
    let here = |m: Node| is_use(m, f);
    let deep = |m: Node| uses(m, f);
    assert forall|m: Node| #[trigger] closes(m, here, deep) by {
        match m {
            Node::Expr(e) => lemma_expr_closes(e, f),
            Node::Stmt(s) => lemma_stmt_closes(s, f),
        }
        if exists|x: Node| #[trigger] is_part(m, x) && uses(x, f) {
            let x = choose|x: Node| #[trigger] is_part(m, x) && uses(x, f);
            assert(is_part(m, x) && deep(x));
        }
        if exists|x: Node| #[trigger] is_part(m, x) && deep(x) {
            let x = choose|x: Node| #[trigger] is_part(m, x) && deep(x);
            assert(is_part(m, x) && uses(x, f));
        }
    }
    lemma_deep(n, here, deep);
    if exists|x: Node| #[trigger] inside(n, x) && here(x) {
        let x = choose|x: Node| #[trigger] inside(n, x) && here(x);
        assert(inside(n, x) && is_use(x, f));
    }
    if exists|x: Node| #[trigger] inside(n, x) && is_use(x, f) {
        let x = choose|x: Node| #[trigger] inside(n, x) && is_use(x, f);
        assert(inside(n, x) && here(x));
    }
}

/// A body uses a feature exactly where a use of it stands in the body.
pub proof fn law_body_uses_what_stands_in_it(ss: Seq<Stmt>, f: Feature)
    ensures
        stmts_use_spec(ss, f) <==> exists|x: Node| #[trigger] in_body(ss, x) && is_use(x, f),
{
    if stmts_use_spec(ss, f) {
        let i = choose|i: int| 0 <= i < ss.len() && stmt_uses_spec(#[trigger] ss[i], f);
        lemma_uses_inside(Node::Stmt(ss[i]), f);
        let x = choose|x: Node| #[trigger] inside(Node::Stmt(ss[i]), x) && is_use(x, f);
        assert(in_body(ss, x));
    }
    if exists|x: Node| #[trigger] in_body(ss, x) && is_use(x, f) {
        let x = choose|x: Node| #[trigger] in_body(ss, x) && is_use(x, f);
        let i = choose|i: int| 0 <= i < ss.len() && inside(Node::Stmt(#[trigger] ss[i]), x);
        lemma_uses_inside(Node::Stmt(ss[i]), f);
        assert(stmt_uses_spec(ss[i], f));
    }
}

/// The functions of a program use a feature exactly where a use of it stands in the body of one.
pub proof fn law_functions_use_what_stands_in_them(p: XeresProgram, f: Feature)
    ensures
        functions_use_spec(p, f) <==> exists|i: int, x: Node|
            0 <= i < p.functions@.len() && #[trigger] in_body(p.functions@[i].body@, x) && is_use(x, f),
{
    if functions_use_spec(p, f) {
        let i = choose|i: int|
            0 <= i < p.functions@.len() && stmts_use_spec((#[trigger] p.functions@[i]).body@, f);
        law_body_uses_what_stands_in_it(p.functions@[i].body@, f);
        let x = choose|x: Node| #[trigger] in_body(p.functions@[i].body@, x) && is_use(x, f);
        assert(in_body(p.functions@[i].body@, x));
    }
    if exists|i: int, x: Node|
        0 <= i < p.functions@.len() && #[trigger] in_body(p.functions@[i].body@, x) && is_use(x, f) {
        let (i, x) = choose|i: int, x: Node|
            0 <= i < p.functions@.len() && #[trigger] in_body(p.functions@[i].body@, x) && is_use(x, f);
        law_body_uses_what_stands_in_it(p.functions@[i].body@, f);
        assert(stmts_use_spec(p.functions@[i].body@, f));
    }
}

} // verus!
