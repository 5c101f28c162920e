//! What stands inside what: the parts of a statement and of an expression, and all that stands in one
//! at any depth.
use vstd::prelude::*;

use crate::ast::{Expr, Stmt};

verus! {

/// A node of a body.
pub enum Node {
    Expr(Expr),
    Stmt(Stmt),
}

/// Whether a node is one of the expressions of a list.
pub open spec fn among_exprs(es: Seq<Expr>, x: Node) -> bool {
    exists|i: int| 0 <= i < es.len() && x == Node::Expr(#[trigger] es[i])
}

/// Whether a node is one of the statements of a list.
pub open spec fn among_stmts(ss: Seq<Stmt>, x: Node) -> bool {
    exists|i: int| 0 <= i < ss.len() && x == Node::Stmt(#[trigger] ss[i])
}

/// Whether a node stands directly in an expression.
pub open spec fn part_of_expr(e: Expr, x: Node) -> bool {
    match e {
        Expr::Int(_)
        | Expr::Float(_)
        | Expr::Str(_)
        | Expr::Bool(_)
        | Expr::Ident(_)
        | Expr::NoneLit => false,
        Expr::Field { base, .. } => x == Node::Expr(*base),
        Expr::Unary { expr, .. } => x == Node::Expr(*expr),
        Expr::Binary { left, right, .. } => x == Node::Expr(*left) || x == Node::Expr(*right),
        Expr::Call { args, .. } => among_exprs(args@, x),
        Expr::MethodCall { receiver, args, .. } => x == Node::Expr(*receiver) || among_exprs(args@, x),
        Expr::Declassify(inner) => x == Node::Expr(*inner),
        Expr::Raw(inner) => x == Node::Expr(*inner),
        Expr::Await(inner) => x == Node::Expr(*inner),
        Expr::Record { fields, .. } => exists|i: int|
            0 <= i < fields@.len() && x == Node::Expr((#[trigger] fields@[i]).1),
        Expr::ListLit(items) => among_exprs(items@, x),
        Expr::Ternary { cond, yes, otherwise } => x == Node::Expr(*cond) || x == Node::Expr(*yes) || x
            == Node::Expr(*otherwise),
        Expr::Range { start, end } => x == Node::Expr(*start) || x == Node::Expr(*end),
        Expr::Index { base, index } => x == Node::Expr(*base) || x == Node::Expr(*index),
        Expr::Closure { body, .. } => x == Node::Expr(*body),
    }
}

/// Whether a node stands directly in a statement.
pub open spec fn part_of_stmt(s: Stmt, x: Node) -> bool {
    match s {
        Stmt::Let { value, .. } => x == Node::Expr(value),
        Stmt::Assign { value, .. } => x == Node::Expr(value),
        Stmt::Return(value) => x == Node::Expr(value),
        Stmt::Expr(value) => x == Node::Expr(value),
        Stmt::Try { body, handler } => among_stmts(body@, x) || among_stmts(handler@, x),
        Stmt::If { cond, then_body, else_body } => x == Node::Expr(cond) || among_stmts(
            then_body@,
            x,
        ) || among_stmts(else_body@, x),
        Stmt::For { iter, body, .. } => x == Node::Expr(iter) || among_stmts(body@, x),
        Stmt::While { cond, body } => x == Node::Expr(cond) || among_stmts(body@, x),
        Stmt::Match { scrutinee, arms } => x == Node::Expr(scrutinee) || exists|i: int|
            0 <= i < arms@.len() && among_stmts((#[trigger] arms@[i]).body@, x),
        Stmt::Transaction(body) => among_stmts(body@, x),
        Stmt::Break | Stmt::Continue => false,
    }
}

/// Whether a node stands directly in another.
pub open spec fn is_part(n: Node, x: Node) -> bool {
    match n {
        Node::Expr(e) => part_of_expr(e, x),
        Node::Stmt(s) => part_of_stmt(s, x),
    }
}

/// Whether each node of a chain stands directly in the one before it.
pub open spec fn nests(chain: Seq<Node>) -> bool {
    forall|i: int| 0 <= i < chain.len() - 1 ==> is_part(#[trigger] chain[i], chain[i + 1])
}

/// Whether a chain leads from a node inwards to another.
pub open spec fn leads(chain: Seq<Node>, from: Node, to: Node) -> bool {
    chain.len() > 0 && chain[0] == from && chain.last() == to && nests(chain)
}

/// Whether a node is another, or stands in it at any depth.
pub open spec fn inside(n: Node, x: Node) -> bool {
    exists|chain: Seq<Node>| leads(chain, n, x)
}

/// Whether a node stands in one of the statements of a body, at any depth.
pub open spec fn in_body(ss: Seq<Stmt>, x: Node) -> bool {
    exists|i: int| 0 <= i < ss.len() && inside(Node::Stmt(#[trigger] ss[i]), x)
}

/// What holds of a node itself or of one of its parts, for a test `here` and its closure `deep`.
pub open spec fn closes(n: Node, here: spec_fn(Node) -> bool, deep: spec_fn(Node) -> bool) -> bool {
    deep(n) <==> (here(n) || exists|x: Node| #[trigger] is_part(n, x) && deep(x))
}

proof fn lemma_down(chain: Seq<Node>, here: spec_fn(Node) -> bool, deep: spec_fn(Node) -> bool)
    requires
        forall|n: Node| #[trigger] closes(n, here, deep),
        chain.len() > 0,
        nests(chain),
        here(chain.last()),
    ensures
        deep(chain[0]),
    decreases chain.len(),
{
    assert(closes(chain[0], here, deep));
    if chain.len() > 1 {
        let rest = chain.subrange(1, chain.len() as int);
        assert forall|i: int| 0 <= i < rest.len() - 1 implies is_part(#[trigger] rest[i], rest[i + 1]) by {
            assert(is_part(chain[i + 1], chain[i + 2]));
        }
        lemma_down(rest, here, deep);
        assert(is_part(chain[0], chain[1]));
    }
}

proof fn lemma_prepend(n: Node, x: Node, y: Node)
    requires
        is_part(n, x),
        inside(x, y),
    ensures
        inside(n, y),
{
    let rest = choose|chain: Seq<Node>| leads(chain, x, y);
    let chain = seq![n] + rest;
    assert forall|i: int| 0 <= i < chain.len() - 1 implies is_part(#[trigger] chain[i], chain[i + 1]) by {
        if i > 0 {
            assert(is_part(rest[i - 1], rest[i]));
        }
    }
    assert(leads(chain, n, y));
}

proof fn lemma_itself(n: Node)
    ensures
        inside(n, n),
{
    assert(leads(seq![n], n, n));
}

proof fn lemma_up_expr(e: Expr, here: spec_fn(Node) -> bool, deep: spec_fn(Node) -> bool)
    requires
        forall|n: Node| #[trigger] closes(n, here, deep),
        deep(Node::Expr(e)),
    ensures
        exists|x: Node| #[trigger] inside(Node::Expr(e), x) && here(x),
    decreases e,
{
    let n = Node::Expr(e);
    assert(closes(n, here, deep));
    if here(n) {
        lemma_itself(n);
    } else {
        let x = choose|x: Node| #[trigger] is_part(n, x) && deep(x);
        assert(x is Expr);
        lemma_part_of_expr(e, x->Expr_0);
        lemma_up_expr(x->Expr_0, here, deep);
        let y = choose|y: Node| #[trigger] inside(x, y) && here(y);
        lemma_prepend(n, x, y);
    }
}

pub(crate) proof fn lemma_part_of_expr(e: Expr, x: Expr)
    requires
        part_of_expr(e, Node::Expr(x)),
    ensures
        decreases_to!(e => x),
{
    match e {
        Expr::Call { args, .. } => {
            let i = choose|i: int| 0 <= i < args@.len() && x == #[trigger] args@[i];
            assert(decreases_to!(args@ => args@[i]));
        },
        Expr::MethodCall { receiver, args, .. } => {
            if x != *receiver {
                let i = choose|i: int| 0 <= i < args@.len() && x == #[trigger] args@[i];
                assert(decreases_to!(args@ => args@[i]));
            }
        },
        Expr::ListLit(items) => {
            let i = choose|i: int| 0 <= i < items@.len() && x == #[trigger] items@[i];
            assert(decreases_to!(items@ => items@[i]));
        },
        Expr::Record { fields, .. } => {
            let i = choose|i: int| 0 <= i < fields@.len() && x == (#[trigger] fields@[i]).1;
            assert(decreases_to!(fields@ => fields@[i]));
        },
        _ => {},
    }
}

proof fn lemma_part_of_stmt(s: Stmt, x: Stmt)
    requires
        part_of_stmt(s, Node::Stmt(x)),
    ensures
        decreases_to!(s => x),
{
    match s {
        Stmt::Try { body, handler } => {
            if among_stmts(body@, Node::Stmt(x)) {
                let i = choose|i: int| 0 <= i < body@.len() && x == #[trigger] body@[i];
                assert(decreases_to!(body@ => body@[i]));
            } else {
                let i = choose|i: int| 0 <= i < handler@.len() && x == #[trigger] handler@[i];
                assert(decreases_to!(handler@ => handler@[i]));
            }
        },
        Stmt::If { then_body, else_body, .. } => {
            if among_stmts(then_body@, Node::Stmt(x)) {
                let i = choose|i: int| 0 <= i < then_body@.len() && x == #[trigger] then_body@[i];
                assert(decreases_to!(then_body@ => then_body@[i]));
            } else {
                let i = choose|i: int| 0 <= i < else_body@.len() && x == #[trigger] else_body@[i];
                assert(decreases_to!(else_body@ => else_body@[i]));
            }
        },
        Stmt::For { body, .. } => {
            let i = choose|i: int| 0 <= i < body@.len() && x == #[trigger] body@[i];
            assert(decreases_to!(body@ => body@[i]));
        },
        Stmt::While { body, .. } => {
            let i = choose|i: int| 0 <= i < body@.len() && x == #[trigger] body@[i];
            assert(decreases_to!(body@ => body@[i]));
        },
        Stmt::Match { arms, .. } => {
            let k = choose|k: int|
                0 <= k < arms@.len() && among_stmts((#[trigger] arms@[k]).body@, Node::Stmt(x));
            let body = arms@[k].body;
            let i = choose|i: int| 0 <= i < body@.len() && x == #[trigger] body@[i];
            assert(decreases_to!(arms@ => arms@[k]));
            assert(decreases_to!(body@ => body@[i]));
        },
        Stmt::Transaction(body) => {
            let i = choose|i: int| 0 <= i < body@.len() && x == #[trigger] body@[i];
            assert(decreases_to!(body@ => body@[i]));
        },
        _ => {},
    }
}

proof fn lemma_up_stmt(s: Stmt, here: spec_fn(Node) -> bool, deep: spec_fn(Node) -> bool)
    requires
        forall|n: Node| #[trigger] closes(n, here, deep),
        deep(Node::Stmt(s)),
    ensures
        exists|x: Node| #[trigger] inside(Node::Stmt(s), x) && here(x),
    decreases s,
{
    let n = Node::Stmt(s);
    assert(closes(n, here, deep));
    if here(n) {
        lemma_itself(n);
    } else {
        let x = choose|x: Node| #[trigger] is_part(n, x) && deep(x);
        match x {
            Node::Expr(e) => {
                lemma_up_expr(e, here, deep);
            },
            Node::Stmt(t) => {
                lemma_part_of_stmt(s, t);
                lemma_up_stmt(t, here, deep);
            },
        }
        let y = choose|y: Node| #[trigger] inside(x, y) && here(y);
        lemma_prepend(n, x, y);
    }
}

/// A test that looks at a node and, through all its parts, at what stands in it holds exactly where
/// something inside passes it.
pub proof fn lemma_deep(n: Node, here: spec_fn(Node) -> bool, deep: spec_fn(Node) -> bool)
    requires
        forall|m: Node| #[trigger] closes(m, here, deep),
    ensures
        deep(n) <==> exists|x: Node| #[trigger] inside(n, x) && here(x),
{
    if deep(n) {
        match n {
            Node::Expr(e) => lemma_up_expr(e, here, deep),
            Node::Stmt(s) => lemma_up_stmt(s, here, deep),
        }
    }
    if exists|x: Node| #[trigger] inside(n, x) && here(x) {
        let x = choose|x: Node| #[trigger] inside(n, x) && here(x);
        let chain = choose|chain: Seq<Node>| leads(chain, n, x);
        lemma_down(chain, here, deep);
    }
}

} // verus!
