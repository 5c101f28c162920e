//! Where secrets go: an expression holds one exactly where a source of secrets stands in it and nothing in
//! between releases it.
use vstd::prelude::*;

use crate::ast::{Expr, XeresProgram};
use crate::resolve::{field_prop, type_of, LocalView};
use crate::syntax::{is_part, leads, nests, part_of_expr, Node};
use crate::taint::tainted;

verus! {

/// Whether an expression is, by itself, a source of secrets: a name that holds one, a read of a secret field,
/// or a call of a function that returns one.
pub open spec fn is_source(
    e: Expr,
    ls: Map<Seq<char>, LocalView>,
    p: XeresProgram,
    rs: Map<Seq<char>, bool>,
) -> bool {
    match e {
        Expr::Ident(v) => ls.dom().contains(v@) && ls[v@].tainted,
        Expr::Field { base, field } => {
            &&& type_of(*base, ls, p) is Some
            &&& field_prop(type_of(*base, ls, p)->0, field@, p) is Some
            &&& field_prop(type_of(*base, ls, p)->0, field@, p)->0.is_secret
        },
        Expr::Call { callee, .. } => rs.dom().contains(callee@) && rs[callee@],
        _ => false,
    }
}

/// Whether what stands in a node comes out of it: not out of a release, an `await`, a call or a method.
pub open spec fn lets_through(n: Node) -> bool {
    n matches Node::Expr(e) && !(e is Declassify || e is Await || e is Call || e is MethodCall)
}

/// Whether a chain of nodes leads from an expression inwards to a source of secrets, with nothing on the way
/// that keeps a secret in.
pub open spec fn leads_to_source(
    chain: Seq<Node>,
    e: Expr,
    x: Expr,
    ls: Map<Seq<char>, LocalView>,
    p: XeresProgram,
    rs: Map<Seq<char>, bool>,
) -> bool {
    &&& leads(chain, Node::Expr(e), Node::Expr(x))
    &&& is_source(x, ls, p, rs)
    &&& forall|k: int| 0 <= k < chain.len() - 1 ==> lets_through(#[trigger] chain[k])
}

proof fn lemma_part_taints(
    e: Expr,
    x: Node,
    ls: Map<Seq<char>, LocalView>,
    p: XeresProgram,
    rs: Map<Seq<char>, bool>,
)
    requires
        part_of_expr(e, x),
        lets_through(Node::Expr(e)),
    ensures
        x is Expr,
        tainted(x->Expr_0, ls, p, rs) ==> tainted(e, ls, p, rs),
{
    match e {
        Expr::ListLit(items) => {
            let i = choose|i: int| 0 <= i < items@.len() && x == Node::Expr(#[trigger] items@[i]);
            assert(tainted(items@[i], ls, p, rs) ==> tainted(e, ls, p, rs));
        },
        Expr::Record { fields, .. } => {
            let i = choose|i: int| 0 <= i < fields@.len() && x == Node::Expr((#[trigger] fields@[i]).1);
            assert(tainted(fields@[i].1, ls, p, rs) ==> tainted(e, ls, p, rs));
        },
        _ => {},
    }
}

/// A source of secrets makes a secret of every expression that it comes out of.
pub proof fn law_secret_comes_through(
    chain: Seq<Node>,
    e: Expr,
    x: Expr,
    ls: Map<Seq<char>, LocalView>,
    p: XeresProgram,
    rs: Map<Seq<char>, bool>,
)
    requires
        leads_to_source(chain, e, x, ls, p, rs),
    ensures
        tainted(e, ls, p, rs),
    decreases chain.len(),
{
    if chain.len() > 1 {
        assert(is_part(chain[0], chain[1]));
        assert(lets_through(chain[0]));
        lemma_part_taints(e, chain[1], ls, p, rs);
        let rest = chain.subrange(1, chain.len() as int);
        assert forall|i: int| 0 <= i < rest.len() - 1 implies is_part(#[trigger] rest[i], rest[i + 1]) by {
            assert(is_part(chain[i + 1], chain[i + 1 + 1]));
        }
        assert forall|k: int| 0 <= k < rest.len() - 1 implies lets_through(#[trigger] rest[k]) by {
            assert(lets_through(chain[k + 1]));
        }
        law_secret_comes_through(rest, chain[1]->Expr_0, x, ls, p, rs);
    }
}

proof fn lemma_step(
    e: Expr,
    y: Expr,
    ls: Map<Seq<char>, LocalView>,
    p: XeresProgram,
    rs: Map<Seq<char>, bool>,
)
    requires
        part_of_expr(e, Node::Expr(y)),
        lets_through(Node::Expr(e)),
        exists|chain: Seq<Node>, x: Expr| leads_to_source(chain, y, x, ls, p, rs),
    ensures
        exists|chain: Seq<Node>, x: Expr| leads_to_source(chain, e, x, ls, p, rs),
{
    let (rest, x) = choose|chain: Seq<Node>, x: Expr| leads_to_source(chain, y, x, ls, p, rs);
    let chain = seq![Node::Expr(e)] + rest;
    assert forall|i: int| 0 <= i < chain.len() - 1 implies is_part(#[trigger] chain[i], chain[i + 1]) by {
        if i > 0 {
            assert(is_part(rest[i - 1], rest[i - 1 + 1]));
        }
    }
    assert forall|k: int| 0 <= k < chain.len() - 1 implies lets_through(#[trigger] chain[k]) by {
        if k > 0 {
            assert(lets_through(rest[k - 1]));
        }
    }
    assert(nests(chain));
    assert(leads_to_source(chain, e, x, ls, p, rs));
}

/// Where an expression holds a secret, a source of secrets stands in it, with nothing on the way that keeps
/// a secret in.
pub proof fn law_secret_has_a_source(
    e: Expr,
    ls: Map<Seq<char>, LocalView>,
    p: XeresProgram,
    rs: Map<Seq<char>, bool>,
)
    requires
        tainted(e, ls, p, rs),
    ensures
        exists|chain: Seq<Node>, x: Expr| leads_to_source(chain, e, x, ls, p, rs),
    decreases e,
{
    if is_source(e, ls, p, rs) {
        assert(leads_to_source(seq![Node::Expr(e)], e, e, ls, p, rs));
    } else {
        let y = match e {
            Expr::Field { base, .. } => *base,
            Expr::Unary { expr, .. } => *expr,
            Expr::Binary { left, right, .. } => if tainted(*left, ls, p, rs) {
                *left
            } else {
                *right
            },
            Expr::Raw(inner) => *inner,
            Expr::ListLit(items) => items@[choose|i: int|
                0 <= i < items@.len() && tainted(#[trigger] items@[i], ls, p, rs)],
            Expr::Record { fields, .. } => fields@[choose|i: int|
                0 <= i < fields@.len() && tainted((#[trigger] fields@[i]).1, ls, p, rs)].1,
            Expr::Ternary { cond, yes, otherwise } => if tainted(*cond, ls, p, rs) {
                *cond
            } else if tainted(*yes, ls, p, rs) {
                *yes
            } else {
                *otherwise
            },
            Expr::Range { start, end } => if tainted(*start, ls, p, rs) {
                *start
            } else {
                *end
            },
            Expr::Index { base, index } => if tainted(*base, ls, p, rs) {
                *base
            } else {
                *index
            },
            Expr::Closure { body, .. } => *body,
            _ => e,
        };
        assert(part_of_expr(e, Node::Expr(y)));
        crate::syntax::lemma_part_of_expr(e, y);
        law_secret_has_a_source(y, ls, p, rs);
        lemma_step(e, y, ls, p, rs);
    }
}

} // verus!
