//! What holds of lowering: it is settled at once, so that lowering what has been lowered changes
//! nothing.
use vstd::prelude::*;

use crate::ast::{
    ApiNode, ApiRoute, Expr, FunctionNode, Handler, MatchArm, ScreenNode, StateNode, Stmt, ViewNode,
    XeresProgram,
};
use crate::flow::let_scope;
use crate::lower::{
    all_lower, api_lowers, arms_lower, body_scope, cells_lower, event_lowers, fields_lower,
    folds_elements, function_lowers, lemma_lowers_ident, lowers, maps_elements, program_lowers,
    route_lowers, screen_lowers, slot_lowers, stmt_lowers, stmts_lower, view_lowers, views_lower,
};
use crate::resolve::{elem_of, element_type, opt_text, type_of, typed, LocalView};
use crate::table::function_index;
use crate::taint::param_scope;
use crate::views::cell_scope;

verus! {

/// Whether two expressions are the same, by their texts.
pub open spec fn same_expr(a: Expr, b: Expr) -> bool
    decreases a,
{
    match a {
        Expr::Binary { op, left, right } => {
            &&& b matches Expr::Binary { op: o, left: l, right: r }
            &&& o == op
            &&& same_expr(*left, *l)
            &&& same_expr(*right, *r)
        },
        Expr::MethodCall { receiver, method, args } => {
            &&& b matches Expr::MethodCall { receiver: r, method: m, args: bs }
            &&& m@ == method@
            &&& same_expr(*receiver, *r)
            &&& same_exprs(args@, bs@)
        },
        Expr::Field { base, field } => {
            &&& b matches Expr::Field { base: x, field: f }
            &&& f@ == field@
            &&& same_expr(*base, *x)
        },
        Expr::Call { callee, args } => {
            &&& b matches Expr::Call { callee: c, args: bs }
            &&& c@ == callee@
            &&& same_exprs(args@, bs@)
        },
        Expr::Unary { op, expr } => {
            &&& b matches Expr::Unary { op: o, expr: x }
            &&& o == op
            &&& same_expr(*expr, *x)
        },
        Expr::Declassify(inner) => {
            &&& b matches Expr::Declassify(x)
            &&& same_expr(*inner, *x)
        },
        Expr::Raw(inner) => {
            &&& b matches Expr::Raw(x)
            &&& same_expr(*inner, *x)
        },
        Expr::Await(inner) => {
            &&& b matches Expr::Await(x)
            &&& same_expr(*inner, *x)
        },
        Expr::Record { name, fields } => {
            &&& b matches Expr::Record { name: n, fields: fs }
            &&& n@ == name@
            &&& same_fields(fields@, fs@)
        },
        Expr::ListLit(items) => {
            &&& b matches Expr::ListLit(bs)
            &&& same_exprs(items@, bs@)
        },
        Expr::Ternary { cond, yes, otherwise } => {
            &&& b matches Expr::Ternary { cond: c, yes: y, otherwise: o }
            &&& same_expr(*cond, *c)
            &&& same_expr(*yes, *y)
            &&& same_expr(*otherwise, *o)
        },
        Expr::Range { start, end } => {
            &&& b matches Expr::Range { start: s, end: e }
            &&& same_expr(*start, *s)
            &&& same_expr(*end, *e)
        },
        Expr::Closure { params, body } => {
            &&& b matches Expr::Closure { params: q, body: x }
            &&& q@ == params@
            &&& same_expr(*body, *x)
        },
        Expr::Index { base, index } => {
            &&& b matches Expr::Index { base: x, index: i }
            &&& same_expr(*base, *x)
            &&& same_expr(*index, *i)
        },
        Expr::Int(_)
        | Expr::Float(_)
        | Expr::Str(_)
        | Expr::Bool(_)
        | Expr::Ident(_)
        | Expr::NoneLit => b == a,
    }
}

/// Whether the expressions of two lists are the same.
pub open spec fn same_exprs(es: Seq<Expr>, bs: Seq<Expr>) -> bool
    decreases es,
{
    es.len() == bs.len() && forall|i: int| 0 <= i < es.len() ==> same_expr(#[trigger] es[i], bs[i])
}

/// Whether the named expressions of two lists are the same.
pub open spec fn same_fields(fs: Seq<(String, Expr)>, bs: Seq<(String, Expr)>) -> bool
    decreases fs,
{
    fs.len() == bs.len() && forall|i: int|
        0 <= i < fs.len() ==> (#[trigger] fs[i]).0@ == bs[i].0@ && same_expr(fs[i].1, bs[i].1)
}

/// Whether two statements are the same, by their texts.
pub open spec fn same_stmt(a: Stmt, b: Stmt) -> bool
    decreases a,
{
    match a {
        Stmt::Let { name, type_ann, value } => {
            &&& b matches Stmt::Let { name: n, type_ann: t, value: v }
            &&& n@ == name@
            &&& opt_text(t) == opt_text(type_ann)
            &&& same_expr(value, v)
        },
        Stmt::Assign { name, value } => {
            &&& b matches Stmt::Assign { name: n, value: v }
            &&& n@ == name@
            &&& same_expr(value, v)
        },
        Stmt::Return(e) => {
            &&& b matches Stmt::Return(x)
            &&& same_expr(e, x)
        },
        Stmt::Expr(e) => {
            &&& b matches Stmt::Expr(x)
            &&& same_expr(e, x)
        },
        Stmt::Try { body, handler } => {
            &&& b matches Stmt::Try { body: x, handler: h }
            &&& same_stmts(body@, x@)
            &&& same_stmts(handler@, h@)
        },
        Stmt::If { cond, then_body, else_body } => {
            &&& b matches Stmt::If { cond: c, then_body: t, else_body: e }
            &&& same_expr(cond, c)
            &&& same_stmts(then_body@, t@)
            &&& same_stmts(else_body@, e@)
        },
        Stmt::For { var, iter, body } => {
            &&& b matches Stmt::For { var: v, iter: i, body: x }
            &&& v@ == var@
            &&& same_expr(iter, i)
            &&& same_stmts(body@, x@)
        },
        Stmt::While { cond, body } => {
            &&& b matches Stmt::While { cond: c, body: x }
            &&& same_expr(cond, c)
            &&& same_stmts(body@, x@)
        },
        Stmt::Match { scrutinee, arms } => {
            &&& b matches Stmt::Match { scrutinee: s, arms: bs }
            &&& same_expr(scrutinee, s)
            &&& same_arms(arms@, bs@)
        },
        Stmt::Transaction(body) => {
            &&& b matches Stmt::Transaction(x)
            &&& same_stmts(body@, x@)
        },
        Stmt::Break => b is Break,
        Stmt::Continue => b is Continue,
    }
}

/// Whether the statements of two lists are the same.
pub open spec fn same_stmts(ss: Seq<Stmt>, bs: Seq<Stmt>) -> bool
    decreases ss,
{
    ss.len() == bs.len() && forall|i: int| 0 <= i < ss.len() ==> same_stmt(#[trigger] ss[i], bs[i])
}

/// Whether the arms of two lists are the same.
pub open spec fn same_arms(arms: Seq<MatchArm>, bs: Seq<MatchArm>) -> bool
    decreases arms,
{
    arms.len() == bs.len() && forall|i: int|
        0 <= i < arms.len() ==> (#[trigger] arms[i]).pattern == bs[i].pattern && same_stmts(
            arms[i].body@,
            bs[i].body@,
        )
}

/// Whether two expression slots are the same.
pub open spec fn same_slot(a: Option<Expr>, b: Option<Expr>) -> bool {
    match a {
        Some(x) => b is Some && same_expr(x, b->0),
        None => b is None,
    }
}

/// Whether two event slots are the same.
pub open spec fn same_event(a: Option<Handler>, b: Option<Handler>) -> bool {
    match a {
        Some(Handler::Call(e)) => {
            &&& b matches Some(Handler::Call(x))
            &&& same_expr(e, x)
        },
        Some(Handler::Block(ss)) => {
            &&& b matches Some(Handler::Block(bs))
            &&& same_stmts(ss@, bs@)
        },
        None => b is None,
    }
}

/// Whether two view nodes are the same, by their texts.
pub open spec fn same_view(a: ViewNode, b: ViewNode) -> bool
    decreases a,
{
    match a {
        ViewNode::Element { tag, arg, style, bind, event, children } => {
            &&& b matches ViewNode::Element {
                tag: t,
                arg: x,
                style: st,
                bind: bi,
                event: ev,
                children: cs,
            }
            &&& t@ == tag@
            &&& opt_text(bi) == opt_text(bind)
            &&& same_slot(arg, x)
            &&& same_slot(style, st)
            &&& same_event(event, ev)
            &&& same_views(children@, cs@)
        },
        ViewNode::For { var, iter, body } => {
            &&& b matches ViewNode::For { var: v, iter: i, body: x }
            &&& v@ == var@
            &&& same_expr(iter, i)
            &&& same_views(body@, x@)
        },
        ViewNode::If { cond, then_body, else_body } => {
            &&& b matches ViewNode::If { cond: c, then_body: t, else_body: e }
            &&& same_expr(cond, c)
            &&& same_views(then_body@, t@)
            &&& same_views(else_body@, e@)
        },
        ViewNode::Component { name, args, line } => {
            &&& b matches ViewNode::Component { name: n, args: bs, line: l }
            &&& n@ == name@
            &&& l == line
            &&& same_fields(args@, bs@)
        },
    }
}

/// Whether the view nodes of two lists are the same.
pub open spec fn same_views(vs: Seq<ViewNode>, bs: Seq<ViewNode>) -> bool
    decreases vs,
{
    vs.len() == bs.len() && forall|i: int| 0 <= i < vs.len() ==> same_view(#[trigger] vs[i], bs[i])
}

/// Whether two functions are the same, by their texts.
pub open spec fn same_function(a: FunctionNode, b: FunctionNode) -> bool {
    &&& b.env == a.env
    &&& b.is_auth == a.is_auth
    &&& b.is_pub == a.is_pub
    &&& b.name@ == a.name@
    &&& b.params@ == a.params@
    &&& opt_text(b.return_type) == opt_text(a.return_type)
    &&& b.line == a.line
    &&& b.module@ == a.module@
    &&& same_stmts(a.body@, b.body@)
}

/// Whether two screens are the same, by their texts.
pub open spec fn same_screen(a: ScreenNode, b: ScreenNode) -> bool {
    &&& b.name@ == a.name@
    &&& b.params@ == a.params@
    &&& b.is_component == a.is_component
    &&& b.is_auth == a.is_auth
    &&& opt_text(b.route) == opt_text(a.route)
    &&& b.line == a.line
    &&& b.module@ == a.module@
    &&& a.states@.len() == b.states@.len()
    &&& forall|i: int|
        0 <= i < a.states@.len() ==> (#[trigger] a.states@[i]).name@ == b.states@[i].name@
            && a.states@[i].ty@ == b.states@[i].ty@ && a.states@[i].line == b.states@[i].line
            && same_expr(a.states@[i].init, b.states@[i].init)
    &&& same_views(a.body@, b.body@)
    &&& same_stmts(a.load@, b.load@)
}

/// Whether two inbound routes are the same, by their texts.
pub open spec fn same_route(a: ApiRoute, b: ApiRoute) -> bool {
    &&& b.method@ == a.method@
    &&& b.path@ == a.path@
    &&& b.body == a.body
    &&& opt_text(b.return_type) == opt_text(a.return_type)
    &&& b.line == a.line
    &&& same_stmts(a.body_stmts@, b.body_stmts@)
}

/// Whether two inbound APIs are the same, by their texts.
pub open spec fn same_api(a: ApiNode, b: ApiNode) -> bool {
    &&& b.base@ == a.base@
    &&& b.line == a.line
    &&& b.module@ == a.module@
    &&& a.routes@.len() == b.routes@.len()
    &&& forall|i: int| 0 <= i < a.routes@.len() ==> same_route(#[trigger] a.routes@[i], b.routes@[i])
}

/// Whether two programs are the same, by their texts.
pub open spec fn same_program(a: XeresProgram, b: XeresProgram) -> bool {
    &&& b.models == a.models
    &&& b.enums == a.enums
    &&& b.states == a.states
    &&& b.endpoints == a.endpoints
    &&& b.imports == a.imports
    &&& b.requires_caps == a.requires_caps
    &&& b.themes == a.themes
    &&& b.styles == a.styles
    &&& b.functions@.len() == a.functions@.len()
    &&& forall|i: int|
        0 <= i < a.functions@.len() ==> same_function(#[trigger] a.functions@[i], b.functions@[i])
    &&& b.screens@.len() == a.screens@.len()
    &&& forall|i: int|
        0 <= i < a.screens@.len() ==> same_screen(#[trigger] a.screens@[i], b.screens@[i])
    &&& b.apis@.len() == a.apis@.len()
    &&& forall|i: int| 0 <= i < a.apis@.len() ==> same_api(#[trigger] a.apis@[i], b.apis@[i])
}

proof fn lemma_same_typed(a: Expr, b: Expr, ls: Map<Seq<char>, LocalView>, p: XeresProgram)
    requires
        same_expr(a, b),
    ensures
        type_of(a, ls, p) == type_of(b, ls, p),
        a is Ident <==> b is Ident,
        a is Ident ==> a == b,
        a is Closure <==> b is Closure,
        a is Closure ==> a->Closure_params@ == b->Closure_params@,
    decreases a,
{
    match a {
        Expr::Binary { left, right, .. } => {
            if let Expr::Binary { left: l, right: r, .. } = b {
                lemma_same_typed(*left, *l, ls, p);
                lemma_same_typed(*right, *r, ls, p);
            }
        },
        Expr::MethodCall { receiver, args, .. } => {
            if let Expr::MethodCall { receiver: r, args: bs, .. } = b {
                lemma_same_typed(*receiver, *r, ls, p);
                assert(same_exprs(args@, bs@));
                if args@.len() > 0 {
                    lemma_same_typed(args@[0], bs@[0], ls, p);
                    if args@[0] is Closure && args@[0]->Closure_params@.len() == 1 {
                        let elem = elem_of(type_of(*receiver, ls, p));
                        lemma_same_typed(
                            *args@[0]->Closure_body,
                            *bs@[0]->Closure_body,
                            ls.insert(args@[0]->Closure_params@[0]@, typed(Some(elem->0))),
                            p,
                        );
                    }
                }
            }
        },
        Expr::Field { base, .. } => {
            if let Expr::Field { base: x, .. } = b {
                lemma_same_typed(*base, *x, ls, p);
            }
        },
        Expr::Call { args, .. } => {
            if let Expr::Call { args: bs, .. } = b {
                assert(same_exprs(args@, bs@));
                if args@.len() > 0 {
                    lemma_same_typed(args@[0], bs@[0], ls, p);
                }
            }
        },
        Expr::Unary { expr, .. } => {
            if let Expr::Unary { expr: x, .. } = b {
                lemma_same_typed(*expr, *x, ls, p);
            }
        },
        Expr::Declassify(inner) => {
            if let Expr::Declassify(x) = b {
                lemma_same_typed(*inner, *x, ls, p);
            }
        },
        Expr::Raw(inner) => {
            if let Expr::Raw(x) = b {
                lemma_same_typed(*inner, *x, ls, p);
            }
        },
        Expr::Await(inner) => {
            if let Expr::Await(x) = b {
                lemma_same_typed(*inner, *x, ls, p);
            }
        },
        Expr::ListLit(items) => {
            if let Expr::ListLit(bs) = b {
                assert(same_exprs(items@, bs@));
                if items@.len() > 0 {
                    lemma_same_typed(items@[0], bs@[0], ls, p);
                }
            }
        },
        Expr::Ternary { yes, otherwise, .. } => {
            if let Expr::Ternary { yes: y, otherwise: o, .. } = b {
                lemma_same_typed(*yes, *y, ls, p);
                lemma_same_typed(*otherwise, *o, ls, p);
            }
        },
        Expr::Index { base, .. } => {
            if let Expr::Index { base: x, .. } = b {
                lemma_same_typed(*base, *x, ls, p);
            }
        },
        _ => {},
    }
}

/// Whether two programs give every expression the same type: they declare the same, but for bodies.
pub open spec fn agrees(p: XeresProgram, q: XeresProgram) -> bool {
    &&& q.models == p.models
    &&& q.enums == p.enums
    &&& q.states == p.states
    &&& q.endpoints == p.endpoints
    &&& q.functions@.len() == p.functions@.len()
    &&& forall|i: int|
        0 <= i < p.functions@.len() ==> (#[trigger] p.functions@[i]).name@ == q.functions@[i].name@
            && opt_text(p.functions@[i].return_type) == opt_text(q.functions@[i].return_type)
}

proof fn lemma_function_index_same(a: Seq<FunctionNode>, b: Seq<FunctionNode>, name: Seq<char>)
    requires
        a.len() == b.len(),
        forall|i: int| 0 <= i < a.len() ==> (#[trigger] a[i]).name@ == b[i].name@,
    ensures
        function_index(a, name) == function_index(b, name),
        function_index(a, name) matches Some(i) ==> 0 <= i < a.len(),
    decreases a.len(),
{
    if a.len() > 0 {
        assert(a[a.len() - 1].name@ == b[a.len() - 1].name@);
        let x = a.drop_last();
        let y = b.drop_last();
        assert forall|i: int| 0 <= i < x.len() implies (#[trigger] x[i]).name@ == y[i].name@ by {
            assert(x[i] == a[i] && y[i] == b[i]);
            assert(a[i].name@ == b[i].name@);
        }
        lemma_function_index_same(x, y, name);
    }
}

proof fn lemma_agreeing_types(
    e: Expr,
    ls: Map<Seq<char>, LocalView>,
    p: XeresProgram,
    q: XeresProgram,
)
    requires
        agrees(p, q),
    ensures
        type_of(e, ls, p) == type_of(e, ls, q),
    decreases e,
{
    match e {
        Expr::Field { base, .. } => {
            lemma_agreeing_types(*base, ls, p, q);
        },
        Expr::Call { callee, args } => {
            lemma_function_index_same(p.functions@, q.functions@, callee@);
            if args@.len() > 0 {
                lemma_agreeing_types(args@[0], ls, p, q);
            }
        },
        Expr::Unary { expr, .. } => {
            lemma_agreeing_types(*expr, ls, p, q);
        },
        Expr::Binary { left, right, .. } => {
            lemma_agreeing_types(*left, ls, p, q);
            lemma_agreeing_types(*right, ls, p, q);
        },
        Expr::Declassify(inner) => {
            lemma_agreeing_types(*inner, ls, p, q);
        },
        Expr::Raw(inner) => {
            lemma_agreeing_types(*inner, ls, p, q);
        },
        Expr::Await(inner) => {
            lemma_agreeing_types(*inner, ls, p, q);
        },
        Expr::MethodCall { receiver, args, .. } => {
            lemma_agreeing_types(*receiver, ls, p, q);
            if args@.len() > 0 {
                lemma_agreeing_types(args@[0], ls, p, q);
                if args@[0] is Closure && args@[0]->Closure_params@.len() == 1 {
                    let elem = elem_of(type_of(*receiver, ls, p));
                    lemma_agreeing_types(
                        *args@[0]->Closure_body,
                        ls.insert(args@[0]->Closure_params@[0]@, typed(Some(elem->0))),
                        p,
                        q,
                    );
                }
            }
        },
        Expr::ListLit(items) => {
            if items@.len() > 0 {
                lemma_agreeing_types(items@[0], ls, p, q);
            }
        },
        Expr::Ternary { yes, otherwise, .. } => {
            lemma_agreeing_types(*yes, ls, p, q);
            lemma_agreeing_types(*otherwise, ls, p, q);
        },
        Expr::Index { base, .. } => {
            lemma_agreeing_types(*base, ls, p, q);
        },
        _ => {},
    }
}

/// What an expression is lowered to is lowered to itself, also behind the lowering of the program that
/// it stands in.
#[verifier::rlimit(60)]
pub proof fn law_lowered_expr_is_kept(
    a: Expr,
    b: Expr,
    ls: Map<Seq<char>, LocalView>,
    p: XeresProgram,
    q: XeresProgram,
)
    requires
        agrees(p, q),
        lowers(a, b, ls, p),
    ensures
        lowers(b, b, ls, q),
    decreases a, 1int,
{
    match a {
        Expr::Binary { op, left, right } => match b {
            Expr::Call { callee, args } => {
                law_lowered_expr_is_kept(*left, args@[0], ls, p, q);
                law_lowered_expr_is_kept(*right, args@[1], ls, p, q);
                assert(all_lower(args@, args@, ls, q));
            },
            Expr::Binary { op: o, left: l, right: r } => {
                law_lowered_expr_is_kept(*left, *l, ls, p, q);
                law_lowered_expr_is_kept(*right, *r, ls, p, q);
                lemma_agreeing_types(*l, ls, p, q);
                lemma_agreeing_types(*r, ls, p, q);
            },
            _ => {},
        },
        Expr::MethodCall { .. } => {
            lemma_lowered_method_kept(a, b, ls, p, q);
        },
        Expr::Field { base, .. } => {
            if let Expr::Field { base: x, .. } = b {
                law_lowered_expr_is_kept(*base, *x, ls, p, q);
            }
        },
        Expr::Call { args, .. } => {
            if let Expr::Call { args: bs, .. } = b {
                lemma_lowered_all_kept(args@, bs@, ls, p, q);
            }
        },
        Expr::Unary { expr, .. } => {
            if let Expr::Unary { expr: x, .. } = b {
                law_lowered_expr_is_kept(*expr, *x, ls, p, q);
            }
        },
        Expr::Declassify(inner) => {
            if let Expr::Declassify(x) = b {
                law_lowered_expr_is_kept(*inner, *x, ls, p, q);
            }
        },
        Expr::Raw(inner) => {
            if let Expr::Raw(x) = b {
                law_lowered_expr_is_kept(*inner, *x, ls, p, q);
            }
        },
        Expr::Await(inner) => {
            if let Expr::Await(x) = b {
                law_lowered_expr_is_kept(*inner, *x, ls, p, q);
            }
        },
        Expr::Record { fields, .. } => {
            if let Expr::Record { fields: fs, .. } = b {
                lemma_lowered_fields_kept(fields@, fs@, ls, p, q);
            }
        },
        Expr::ListLit(items) => {
            if let Expr::ListLit(bs) = b {
                lemma_lowered_all_kept(items@, bs@, ls, p, q);
            }
        },
        Expr::Ternary { cond, yes, otherwise } => {
            if let Expr::Ternary { cond: c, yes: y, otherwise: o } = b {
                law_lowered_expr_is_kept(*cond, *c, ls, p, q);
                law_lowered_expr_is_kept(*yes, *y, ls, p, q);
                law_lowered_expr_is_kept(*otherwise, *o, ls, p, q);
            }
        },
        Expr::Range { start, end } => {
            if let Expr::Range { start: s, end: e } = b {
                law_lowered_expr_is_kept(*start, *s, ls, p, q);
                law_lowered_expr_is_kept(*end, *e, ls, p, q);
            }
        },
        Expr::Closure { body, .. } => {
            if let Expr::Closure { body: x, .. } = b {
                law_lowered_expr_is_kept(*body, *x, ls, p, q);
            }
        },
        Expr::Index { base, index } => {
            if let Expr::Index { base: x, index: i } = b {
                law_lowered_expr_is_kept(*base, *x, ls, p, q);
                law_lowered_expr_is_kept(*index, *i, ls, p, q);
            }
        },
        _ => {},
    }
}

proof fn lemma_lowered_method_kept(
    a: Expr,
    b: Expr,
    ls: Map<Seq<char>, LocalView>,
    p: XeresProgram,
    q: XeresProgram,
)
    requires
        agrees(p, q),
        a is MethodCall,
        lowers(a, b, ls, p),
    ensures
        lowers(b, b, ls, q),
    decreases a, 0int,
{
    let receiver = a->MethodCall_receiver;
    let method = a->MethodCall_method;
    let args = a->MethodCall_args;
    match b {
        Expr::MethodCall { receiver: r, method: m, args: bs } => {
            law_lowered_expr_is_kept(*receiver, *r, ls, p, q);
            let elem = elem_of(type_of(*r, ls, p));
            lemma_agreeing_types(*r, ls, p, q);
            if elem is Some && maps_elements(method@, args@) {
                law_lowered_expr_is_kept(
                    *args@[0]->Closure_body,
                    *bs@[0]->Closure_body,
                    ls.insert(args@[0]->Closure_params@[0]@, typed(elem)),
                    p,
                    q,
                );
                assert(maps_elements(m@, bs@));
            } else if elem is Some && folds_elements(method@, args@) {
                law_lowered_expr_is_kept(args@[0], bs@[0], ls, p, q);
                lemma_agreeing_types(bs@[0], ls, p, q);
                law_lowered_expr_is_kept(
                    *args@[1]->Closure_body,
                    *bs@[1]->Closure_body,
                    ls.insert(
                        args@[1]->Closure_params@[0]@,
                        typed(type_of(bs@[0], ls, p)),
                    ).insert(args@[1]->Closure_params@[1]@, typed(elem)),
                    p,
                    q,
                );
                assert(!maps_elements(m@, bs@));
                assert(folds_elements(m@, bs@));
            } else {
                lemma_lowered_all_kept(args@, bs@, ls, p, q);
                assert(all_lower(args@, bs@, ls, p));
                if args@.len() > 0 {
                    lemma_lowers_ident(args@[0], bs@[0], ls, p);
                }
                if args@.len() > 1 {
                    lemma_lowers_ident(args@[1], bs@[1], ls, p);
                }
                assert(!(elem is Some && maps_elements(m@, bs@)));
                assert(!(elem is Some && folds_elements(m@, bs@)));
            }
        },
        Expr::Call { callee, args: bs } => {
            law_lowered_expr_is_kept(*receiver, bs@[0], ls, p, q);
            law_lowered_expr_is_kept(args@[0], bs@[1], ls, p, q);
            assert(all_lower(bs@, bs@, ls, q));
        },
        _ => {},
    }
}

proof fn lemma_lowered_all_kept(
    es: Seq<Expr>,
    bs: Seq<Expr>,
    ls: Map<Seq<char>, LocalView>,
    p: XeresProgram,
    q: XeresProgram,
)
    requires
        agrees(p, q),
        all_lower(es, bs, ls, p),
    ensures
        all_lower(bs, bs, ls, q),
    decreases es, 0int,
{
    assert forall|i: int| 0 <= i < bs.len() implies lowers(#[trigger] bs[i], bs[i], ls, q) by {
        assert(lowers(es[i], bs[i], ls, p));
        law_lowered_expr_is_kept(es[i], bs[i], ls, p, q);
    }
}

proof fn lemma_lowered_fields_kept(
    fs: Seq<(String, Expr)>,
    bs: Seq<(String, Expr)>,
    ls: Map<Seq<char>, LocalView>,
    p: XeresProgram,
    q: XeresProgram,
)
    requires
        agrees(p, q),
        fields_lower(fs, bs, ls, p),
    ensures
        fields_lower(bs, bs, ls, q),
    decreases fs, 0int,
{
    assert forall|i: int| 0 <= i < bs.len() implies lowers((#[trigger] bs[i]).1, bs[i].1, ls, q) by {
        assert(lowers(fs[i].1, bs[i].1, ls, p));
        law_lowered_expr_is_kept(fs[i].1, bs[i].1, ls, p, q);
    }
}

/// An expression is lowered to one thing.
#[verifier::rlimit(60)]
pub proof fn law_lowered_expr_is_one(
    e: Expr,
    x: Expr,
    y: Expr,
    ls: Map<Seq<char>, LocalView>,
    p: XeresProgram,
)
    requires
        lowers(e, x, ls, p),
        lowers(e, y, ls, p),
    ensures
        same_expr(x, y),
    decreases e, 1int,
{
    match e {
        Expr::Binary { op, left, right } => {
            let xl = if let Expr::Call { args, .. } = x {
                args@[0]
            } else {
                *x->Binary_left
            };
            let xr = if let Expr::Call { args, .. } = x {
                args@[1]
            } else {
                *x->Binary_right
            };
            let yl = if let Expr::Call { args, .. } = y {
                args@[0]
            } else {
                *y->Binary_left
            };
            let yr = if let Expr::Call { args, .. } = y {
                args@[1]
            } else {
                *y->Binary_right
            };
            law_lowered_expr_is_one(*left, xl, yl, ls, p);
            law_lowered_expr_is_one(*right, xr, yr, ls, p);
            lemma_same_typed(xl, yl, ls, p);
            lemma_same_typed(xr, yr, ls, p);
            if x is Call {
                assert(y is Call);
                assert(same_exprs(x->Call_args@, y->Call_args@));
            }
        },
        Expr::MethodCall { receiver, method, args } => {
            lemma_one_method(e, x, y, ls, p);
        },
        Expr::Field { base, .. } => {
            law_lowered_expr_is_one(*base, *x->Field_base, *y->Field_base, ls, p);
        },
        Expr::Call { args, .. } => {
            lemma_one_all(args@, x->Call_args@, y->Call_args@, ls, p);
        },
        Expr::Unary { expr, .. } => {
            law_lowered_expr_is_one(*expr, *x->Unary_expr, *y->Unary_expr, ls, p);
        },
        Expr::Declassify(inner) => {
            law_lowered_expr_is_one(*inner, *x->Declassify_0, *y->Declassify_0, ls, p);
        },
        Expr::Raw(inner) => {
            law_lowered_expr_is_one(*inner, *x->Raw_0, *y->Raw_0, ls, p);
        },
        Expr::Await(inner) => {
            law_lowered_expr_is_one(*inner, *x->Await_0, *y->Await_0, ls, p);
        },
        Expr::Record { fields, .. } => {
            lemma_one_fields(fields@, x->Record_fields@, y->Record_fields@, ls, p);
        },
        Expr::ListLit(items) => {
            lemma_one_all(items@, x->ListLit_0@, y->ListLit_0@, ls, p);
        },
        Expr::Ternary { cond, yes, otherwise } => {
            law_lowered_expr_is_one(*cond, *x->Ternary_cond, *y->Ternary_cond, ls, p);
            law_lowered_expr_is_one(*yes, *x->Ternary_yes, *y->Ternary_yes, ls, p);
            law_lowered_expr_is_one(
                *otherwise,
                *x->Ternary_otherwise,
                *y->Ternary_otherwise,
                ls,
                p,
            );
        },
        Expr::Range { start, end } => {
            law_lowered_expr_is_one(*start, *x->Range_start, *y->Range_start, ls, p);
            law_lowered_expr_is_one(*end, *x->Range_end, *y->Range_end, ls, p);
        },
        Expr::Closure { body, .. } => {
            law_lowered_expr_is_one(*body, *x->Closure_body, *y->Closure_body, ls, p);
        },
        Expr::Index { base, index } => {
            law_lowered_expr_is_one(*base, *x->Index_base, *y->Index_base, ls, p);
            law_lowered_expr_is_one(*index, *x->Index_index, *y->Index_index, ls, p);
        },
        _ => {},
    }
}

proof fn lemma_one_method(
    e: Expr,
    x: Expr,
    y: Expr,
    ls: Map<Seq<char>, LocalView>,
    p: XeresProgram,
)
    requires
        e is MethodCall,
        lowers(e, x, ls, p),
        lowers(e, y, ls, p),
    ensures
        same_expr(x, y),
    decreases e, 0int,
{
    reveal_strlit("contains");
    reveal_strlit("map");
    reveal_strlit("filter");
    assert("contains"@.len() != "map"@.len() && "contains"@.len() != "filter"@.len());
    let receiver = e->MethodCall_receiver;
    let method = e->MethodCall_method;
    let args = e->MethodCall_args;
    let xr = if let Expr::Call { args: bs, .. } = x {
        bs@[0]
    } else {
        *x->MethodCall_receiver
    };
    let yr = if let Expr::Call { args: bs, .. } = y {
        bs@[0]
    } else {
        *y->MethodCall_receiver
    };
    law_lowered_expr_is_one(*receiver, xr, yr, ls, p);
    lemma_same_typed(xr, yr, ls, p);
    let elem = elem_of(type_of(xr, ls, p));
    match x {
        Expr::Call { args: bs, .. } => {
            let cs = y->Call_args;
            assert(y is Call);
            law_lowered_expr_is_one(args@[0], bs@[1], cs@[1], ls, p);
            assert(same_exprs(bs@, cs@));
        },
        Expr::MethodCall { args: bs, .. } => {
            assert(y is MethodCall);
            let cs = y->MethodCall_args;
            if elem is Some && maps_elements(method@, args@) {
                law_lowered_expr_is_one(
                    *args@[0]->Closure_body,
                    *bs@[0]->Closure_body,
                    *cs@[0]->Closure_body,
                    ls.insert(args@[0]->Closure_params@[0]@, typed(elem)),
                    p,
                );
                assert(same_expr(bs@[0], cs@[0]));
                assert(same_exprs(bs@, cs@));
            } else if elem is Some && folds_elements(method@, args@) {
                law_lowered_expr_is_one(args@[0], bs@[0], cs@[0], ls, p);
                lemma_same_typed(bs@[0], cs@[0], ls, p);
                law_lowered_expr_is_one(
                    *args@[1]->Closure_body,
                    *bs@[1]->Closure_body,
                    *cs@[1]->Closure_body,
                    ls.insert(
                        args@[1]->Closure_params@[0]@,
                        typed(type_of(bs@[0], ls, p)),
                    ).insert(args@[1]->Closure_params@[1]@, typed(elem)),
                    p,
                );
                assert(same_expr(bs@[1], cs@[1]));
                assert(same_exprs(bs@, cs@));
            } else {
                lemma_one_all(args@, bs@, cs@, ls, p);
            }
        },
        _ => {},
    }
}

proof fn lemma_one_all(
    es: Seq<Expr>,
    xs: Seq<Expr>,
    ys: Seq<Expr>,
    ls: Map<Seq<char>, LocalView>,
    p: XeresProgram,
)
    requires
        all_lower(es, xs, ls, p),
        all_lower(es, ys, ls, p),
    ensures
        same_exprs(xs, ys),
    decreases es, 0int,
{
    assert forall|i: int| 0 <= i < xs.len() implies same_expr(#[trigger] xs[i], ys[i]) by {
        assert(lowers(es[i], xs[i], ls, p));
        law_lowered_expr_is_one(es[i], xs[i], ys[i], ls, p);
    }
}

proof fn lemma_one_fields(
    fs: Seq<(String, Expr)>,
    xs: Seq<(String, Expr)>,
    ys: Seq<(String, Expr)>,
    ls: Map<Seq<char>, LocalView>,
    p: XeresProgram,
)
    requires
        fields_lower(fs, xs, ls, p),
        fields_lower(fs, ys, ls, p),
    ensures
        same_fields(xs, ys),
    decreases fs, 0int,
{
    assert forall|i: int| 0 <= i < xs.len() implies (#[trigger] xs[i]).0@ == ys[i].0@ && same_expr(
        xs[i].1,
        ys[i].1,
    ) by {
        assert(lowers(fs[i].1, xs[i].1, ls, p));
        law_lowered_expr_is_one(fs[i].1, xs[i].1, ys[i].1, ls, p);
    }
}

proof fn lemma_let_scope_agrees(
    bs: Seq<Stmt>,
    n: int,
    ls: Map<Seq<char>, LocalView>,
    p: XeresProgram,
    q: XeresProgram,
)
    requires
        agrees(p, q),
    ensures
        let_scope(bs, n, ls, p) == let_scope(bs, n, ls, q),
    decreases n,
{
    if 0 < n <= bs.len() {
        lemma_let_scope_agrees(bs, n - 1, ls, p, q);
        if let Stmt::Let { value, .. } = bs[n - 1] {
            lemma_agreeing_types(value, let_scope(bs, n - 1, ls, p), p, q);
        }
    }
}

proof fn lemma_lowered_stmt_kept(
    a: Stmt,
    b: Stmt,
    ls: Map<Seq<char>, LocalView>,
    p: XeresProgram,
    q: XeresProgram,
)
    requires
        agrees(p, q),
        stmt_lowers(a, b, ls, p),
    ensures
        stmt_lowers(b, b, ls, q),
    decreases a, 1int,
{
    match a {
        Stmt::Let { value, .. } => {
            law_lowered_expr_is_kept(value, b->Let_value, ls, p, q);
        },
        Stmt::Assign { value, .. } => {
            law_lowered_expr_is_kept(value, b->Assign_value, ls, p, q);
        },
        Stmt::Return(e) => {
            law_lowered_expr_is_kept(e, b->Return_0, ls, p, q);
        },
        Stmt::Expr(e) => {
            law_lowered_expr_is_kept(e, b->Expr_0, ls, p, q);
        },
        Stmt::Try { body, handler } => {
            lemma_lowered_stmts_kept(body@, b->Try_body@, ls, p, q);
            lemma_lowered_stmts_kept(handler@, b->Try_handler@, ls, p, q);
        },
        Stmt::If { cond, then_body, else_body } => {
            law_lowered_expr_is_kept(cond, b->If_cond, ls, p, q);
            lemma_lowered_stmts_kept(then_body@, b->If_then_body@, ls, p, q);
            lemma_lowered_stmts_kept(else_body@, b->If_else_body@, ls, p, q);
        },
        Stmt::For { var, iter, body } => {
            law_lowered_expr_is_kept(iter, b->For_iter, ls, p, q);
            lemma_agreeing_types(b->For_iter, ls, p, q);
            lemma_lowered_stmts_kept(
                body@,
                b->For_body@,
                ls.insert(var@, typed(element_type(b->For_iter, ls, p))),
                p,
                q,
            );
        },
        Stmt::While { cond, body } => {
            law_lowered_expr_is_kept(cond, b->While_cond, ls, p, q);
            lemma_lowered_stmts_kept(body@, b->While_body@, ls, p, q);
        },
        Stmt::Match { scrutinee, arms } => {
            law_lowered_expr_is_kept(scrutinee, b->Match_scrutinee, ls, p, q);
            lemma_lowered_arms_kept(arms@, b->Match_arms@, ls, p, q);
        },
        Stmt::Transaction(body) => {
            lemma_lowered_stmts_kept(body@, b->Transaction_0@, ls, p, q);
        },
        Stmt::Break => {},
        Stmt::Continue => {},
    }
}

proof fn lemma_lowered_stmts_kept(
    ss: Seq<Stmt>,
    bs: Seq<Stmt>,
    ls: Map<Seq<char>, LocalView>,
    p: XeresProgram,
    q: XeresProgram,
)
    requires
        agrees(p, q),
        stmts_lower(ss, bs, ls, p),
    ensures
        stmts_lower(bs, bs, ls, q),
    decreases ss, 0int,
{
    assert forall|i: int| 0 <= i < bs.len() implies stmt_lowers(
        #[trigger] bs[i],
        bs[i],
        let_scope(bs, i, ls, q),
        q,
    ) by {
        assert(stmt_lowers(ss[i], bs[i], let_scope(bs, i, ls, p), p));
        lemma_let_scope_agrees(bs, i, ls, p, q);
        lemma_lowered_stmt_kept(ss[i], bs[i], let_scope(bs, i, ls, p), p, q);
    }
}

proof fn lemma_lowered_arms_kept(
    arms: Seq<MatchArm>,
    bs: Seq<MatchArm>,
    ls: Map<Seq<char>, LocalView>,
    p: XeresProgram,
    q: XeresProgram,
)
    requires
        agrees(p, q),
        arms_lower(arms, bs, ls, p),
    ensures
        arms_lower(bs, bs, ls, q),
    decreases arms, 0int,
{
    assert forall|i: int| 0 <= i < bs.len() implies stmts_lower(
        (#[trigger] bs[i]).body@,
        bs[i].body@,
        ls,
        q,
    ) by {
        assert(stmts_lower(arms[i].body@, bs[i].body@, ls, p));
        lemma_lowered_stmts_kept(arms[i].body@, bs[i].body@, ls, p, q);
    }
}

proof fn lemma_let_scope_same(
    xs: Seq<Stmt>,
    ys: Seq<Stmt>,
    n: int,
    ls: Map<Seq<char>, LocalView>,
    p: XeresProgram,
)
    requires
        0 <= n <= xs.len(),
        xs.len() == ys.len(),
        forall|i: int| 0 <= i < n ==> same_stmt(#[trigger] xs[i], ys[i]),
    ensures
        let_scope(xs, n, ls, p) == let_scope(ys, n, ls, p),
    decreases n,
{
    if n > 0 {
        lemma_let_scope_same(xs, ys, n - 1, ls, p);
        assert(same_stmt(xs[n - 1], ys[n - 1]));
        if let Stmt::Let { value, .. } = xs[n - 1] {
            lemma_same_typed(value, ys[n - 1]->Let_value, let_scope(xs, n - 1, ls, p), p);
        }
    }
}

proof fn lemma_one_stmt(
    s: Stmt,
    x: Stmt,
    y: Stmt,
    ls: Map<Seq<char>, LocalView>,
    p: XeresProgram,
)
    requires
        stmt_lowers(s, x, ls, p),
        stmt_lowers(s, y, ls, p),
    ensures
        same_stmt(x, y),
    decreases s, 1int,
{
    match s {
        Stmt::Let { value, .. } => {
            law_lowered_expr_is_one(value, x->Let_value, y->Let_value, ls, p);
        },
        Stmt::Assign { value, .. } => {
            law_lowered_expr_is_one(value, x->Assign_value, y->Assign_value, ls, p);
        },
        Stmt::Return(e) => {
            law_lowered_expr_is_one(e, x->Return_0, y->Return_0, ls, p);
        },
        Stmt::Expr(e) => {
            law_lowered_expr_is_one(e, x->Expr_0, y->Expr_0, ls, p);
        },
        Stmt::Try { body, handler } => {
            lemma_one_stmts(body@, x->Try_body@, y->Try_body@, ls, p);
            lemma_one_stmts(handler@, x->Try_handler@, y->Try_handler@, ls, p);
        },
        Stmt::If { cond, then_body, else_body } => {
            law_lowered_expr_is_one(cond, x->If_cond, y->If_cond, ls, p);
            lemma_one_stmts(then_body@, x->If_then_body@, y->If_then_body@, ls, p);
            lemma_one_stmts(else_body@, x->If_else_body@, y->If_else_body@, ls, p);
        },
        Stmt::For { var, iter, body } => {
            law_lowered_expr_is_one(iter, x->For_iter, y->For_iter, ls, p);
            lemma_same_typed(x->For_iter, y->For_iter, ls, p);
            lemma_one_stmts(
                body@,
                x->For_body@,
                y->For_body@,
                ls.insert(var@, typed(element_type(x->For_iter, ls, p))),
                p,
            );
        },
        Stmt::While { cond, body } => {
            law_lowered_expr_is_one(cond, x->While_cond, y->While_cond, ls, p);
            lemma_one_stmts(body@, x->While_body@, y->While_body@, ls, p);
        },
        Stmt::Match { scrutinee, arms } => {
            law_lowered_expr_is_one(scrutinee, x->Match_scrutinee, y->Match_scrutinee, ls, p);
            lemma_one_arms(arms@, x->Match_arms@, y->Match_arms@, ls, p);
        },
        Stmt::Transaction(body) => {
            lemma_one_stmts(body@, x->Transaction_0@, y->Transaction_0@, ls, p);
        },
        Stmt::Break => {},
        Stmt::Continue => {},
    }
}

proof fn lemma_one_stmts_to(
    ss: Seq<Stmt>,
    xs: Seq<Stmt>,
    ys: Seq<Stmt>,
    n: int,
    ls: Map<Seq<char>, LocalView>,
    p: XeresProgram,
)
    requires
        stmts_lower(ss, xs, ls, p),
        stmts_lower(ss, ys, ls, p),
        0 <= n <= ss.len(),
    ensures
        forall|i: int| 0 <= i < n ==> same_stmt(#[trigger] xs[i], ys[i]),
    decreases ss, n,
{
    if n > 0 {
        lemma_one_stmts_to(ss, xs, ys, n - 1, ls, p);
        lemma_let_scope_same(xs, ys, n - 1, ls, p);
        assert(stmt_lowers(ss[n - 1], xs[n - 1], let_scope(xs, n - 1, ls, p), p));
        assert(stmt_lowers(ss[n - 1], ys[n - 1], let_scope(ys, n - 1, ls, p), p));
        lemma_one_stmt(ss[n - 1], xs[n - 1], ys[n - 1], let_scope(xs, n - 1, ls, p), p);
    }
}

proof fn lemma_one_stmts(
    ss: Seq<Stmt>,
    xs: Seq<Stmt>,
    ys: Seq<Stmt>,
    ls: Map<Seq<char>, LocalView>,
    p: XeresProgram,
)
    requires
        stmts_lower(ss, xs, ls, p),
        stmts_lower(ss, ys, ls, p),
    ensures
        same_stmts(xs, ys),
    decreases ss, ss.len() + 1,
{
    lemma_one_stmts_to(ss, xs, ys, ss.len() as int, ls, p);
}

proof fn lemma_one_arms(
    arms: Seq<MatchArm>,
    xs: Seq<MatchArm>,
    ys: Seq<MatchArm>,
    ls: Map<Seq<char>, LocalView>,
    p: XeresProgram,
)
    requires
        arms_lower(arms, xs, ls, p),
        arms_lower(arms, ys, ls, p),
    ensures
        same_arms(xs, ys),
    decreases arms, 0int,
{
    assert forall|i: int| 0 <= i < xs.len() implies (#[trigger] xs[i]).pattern == ys[i].pattern
        && same_stmts(xs[i].body@, ys[i].body@) by {
        assert(stmts_lower(arms[i].body@, xs[i].body@, ls, p));
        lemma_one_stmts(arms[i].body@, xs[i].body@, ys[i].body@, ls, p);
    }
}

proof fn lemma_lowered_slot_kept(
    a: Option<Expr>,
    b: Option<Expr>,
    ls: Map<Seq<char>, LocalView>,
    p: XeresProgram,
    q: XeresProgram,
)
    requires
        agrees(p, q),
        slot_lowers(a, b, ls, p),
    ensures
        slot_lowers(b, b, ls, q),
{
    if let Some(x) = a {
        law_lowered_expr_is_kept(x, b->0, ls, p, q);
    }
}

proof fn lemma_lowered_event_kept(
    a: Option<Handler>,
    b: Option<Handler>,
    ls: Map<Seq<char>, LocalView>,
    p: XeresProgram,
    q: XeresProgram,
)
    requires
        agrees(p, q),
        event_lowers(a, b, ls, p),
    ensures
        event_lowers(b, b, ls, q),
{
    match a {
        Some(Handler::Call(e)) => {
            if let Some(Handler::Call(x)) = b {
                law_lowered_expr_is_kept(e, x, ls, p, q);
            }
        },
        Some(Handler::Block(ss)) => {
            if let Some(Handler::Block(bs)) = b {
                lemma_lowered_stmts_kept(ss@, bs@, ls, p, q);
            }
        },
        None => {},
    }
}

proof fn lemma_lowered_view_kept(
    a: ViewNode,
    b: ViewNode,
    ls: Map<Seq<char>, LocalView>,
    p: XeresProgram,
    q: XeresProgram,
)
    requires
        agrees(p, q),
        view_lowers(a, b, ls, p),
    ensures
        view_lowers(b, b, ls, q),
    decreases a, 1int,
{
    match a {
        ViewNode::Element { arg, style, event, children, .. } => {
            lemma_lowered_slot_kept(arg, b->Element_arg, ls, p, q);
            lemma_lowered_slot_kept(style, b->Element_style, ls, p, q);
            lemma_lowered_event_kept(event, b->Element_event, ls, p, q);
            lemma_lowered_views_kept(children@, b->Element_children@, ls, p, q);
        },
        ViewNode::For { var, iter, body } => {
            law_lowered_expr_is_kept(iter, b->For_iter, ls, p, q);
            lemma_agreeing_types(b->For_iter, ls, p, q);
            lemma_lowered_views_kept(
                body@,
                b->For_body@,
                ls.insert(var@, typed(element_type(b->For_iter, ls, p))),
                p,
                q,
            );
        },
        ViewNode::If { cond, then_body, else_body } => {
            law_lowered_expr_is_kept(cond, b->If_cond, ls, p, q);
            lemma_lowered_views_kept(then_body@, b->If_then_body@, ls, p, q);
            lemma_lowered_views_kept(else_body@, b->If_else_body@, ls, p, q);
        },
        ViewNode::Component { args, .. } => {
            lemma_lowered_fields_kept(args@, b->Component_args@, ls, p, q);
        },
    }
}

proof fn lemma_lowered_views_kept(
    vs: Seq<ViewNode>,
    bs: Seq<ViewNode>,
    ls: Map<Seq<char>, LocalView>,
    p: XeresProgram,
    q: XeresProgram,
)
    requires
        agrees(p, q),
        views_lower(vs, bs, ls, p),
    ensures
        views_lower(bs, bs, ls, q),
    decreases vs, 0int,
{
    assert forall|i: int| 0 <= i < bs.len() implies view_lowers(#[trigger] bs[i], bs[i], ls, q) by {
        assert(view_lowers(vs[i], bs[i], ls, p));
        lemma_lowered_view_kept(vs[i], bs[i], ls, p, q);
    }
}

proof fn lemma_one_slot(
    a: Option<Expr>,
    x: Option<Expr>,
    y: Option<Expr>,
    ls: Map<Seq<char>, LocalView>,
    p: XeresProgram,
)
    requires
        slot_lowers(a, x, ls, p),
        slot_lowers(a, y, ls, p),
    ensures
        same_slot(x, y),
{
    if let Some(e) = a {
        law_lowered_expr_is_one(e, x->0, y->0, ls, p);
    }
}

proof fn lemma_one_event(
    a: Option<Handler>,
    x: Option<Handler>,
    y: Option<Handler>,
    ls: Map<Seq<char>, LocalView>,
    p: XeresProgram,
)
    requires
        event_lowers(a, x, ls, p),
        event_lowers(a, y, ls, p),
    ensures
        same_event(x, y),
{
    match a {
        Some(Handler::Call(e)) => {
            law_lowered_expr_is_one(e, x->0->Call_0, y->0->Call_0, ls, p);
        },
        Some(Handler::Block(ss)) => {
            lemma_one_stmts(ss@, x->0->Block_0@, y->0->Block_0@, ls, p);
        },
        None => {},
    }
}

proof fn lemma_one_view(
    v: ViewNode,
    x: ViewNode,
    y: ViewNode,
    ls: Map<Seq<char>, LocalView>,
    p: XeresProgram,
)
    requires
        view_lowers(v, x, ls, p),
        view_lowers(v, y, ls, p),
    ensures
        same_view(x, y),
    decreases v, 1int,
{
    match v {
        ViewNode::Element { arg, style, event, children, .. } => {
            lemma_one_slot(arg, x->Element_arg, y->Element_arg, ls, p);
            lemma_one_slot(style, x->Element_style, y->Element_style, ls, p);
            lemma_one_event(event, x->Element_event, y->Element_event, ls, p);
            lemma_one_views(children@, x->Element_children@, y->Element_children@, ls, p);
        },
        ViewNode::For { var, iter, body } => {
            law_lowered_expr_is_one(iter, x->For_iter, y->For_iter, ls, p);
            lemma_same_typed(x->For_iter, y->For_iter, ls, p);
            lemma_one_views(
                body@,
                x->For_body@,
                y->For_body@,
                ls.insert(var@, typed(element_type(x->For_iter, ls, p))),
                p,
            );
        },
        ViewNode::If { cond, then_body, else_body } => {
            law_lowered_expr_is_one(cond, x->If_cond, y->If_cond, ls, p);
            lemma_one_views(then_body@, x->If_then_body@, y->If_then_body@, ls, p);
            lemma_one_views(else_body@, x->If_else_body@, y->If_else_body@, ls, p);
        },
        ViewNode::Component { args, .. } => {
            lemma_one_fields(args@, x->Component_args@, y->Component_args@, ls, p);
        },
    }
}

proof fn lemma_one_views(
    vs: Seq<ViewNode>,
    xs: Seq<ViewNode>,
    ys: Seq<ViewNode>,
    ls: Map<Seq<char>, LocalView>,
    p: XeresProgram,
)
    requires
        views_lower(vs, xs, ls, p),
        views_lower(vs, ys, ls, p),
    ensures
        same_views(xs, ys),
    decreases vs, 0int,
{
    assert forall|i: int| 0 <= i < xs.len() implies same_view(#[trigger] xs[i], ys[i]) by {
        assert(view_lowers(vs[i], xs[i], ls, p));
        lemma_one_view(vs[i], xs[i], ys[i], ls, p);
    }
}

proof fn lemma_function_twice(
    a: FunctionNode,
    b: FunctionNode,
    c: FunctionNode,
    p: XeresProgram,
    q: XeresProgram,
)
    requires
        agrees(p, q),
        function_lowers(a, b, p),
        function_lowers(b, c, q),
    ensures
        same_function(b, c),
{
    let ls = param_scope(a.params@, a.params@.len() as int);
    lemma_lowered_stmts_kept(a.body@, b.body@, ls, p, q);
    lemma_one_stmts(b.body@, b.body@, c.body@, ls, q);
}

proof fn lemma_cell_scope_same(
    xs: Seq<StateNode>,
    ys: Seq<StateNode>,
    n: int,
    ls: Map<Seq<char>, LocalView>,
)
    requires
        xs.len() == ys.len(),
        forall|i: int|
            0 <= i < xs.len() ==> (#[trigger] xs[i]).name@ == ys[i].name@ && xs[i].ty@ == ys[i].ty@,
    ensures
        cell_scope(xs, n, ls) == cell_scope(ys, n, ls),
    decreases n,
{
    if 0 < n <= xs.len() {
        lemma_cell_scope_same(xs, ys, n - 1, ls);
        assert(xs[n - 1].name@ == ys[n - 1].name@);
    }
}

proof fn lemma_screen_twice(
    a: ScreenNode,
    b: ScreenNode,
    c: ScreenNode,
    p: XeresProgram,
    q: XeresProgram,
)
    requires
        agrees(p, q),
        screen_lowers(a, b, p),
        screen_lowers(b, c, q),
    ensures
        same_screen(b, c),
{
    let props = param_scope(a.params@, a.params@.len() as int);
    let n = a.states@.len() as int;
    let ls = cell_scope(a.states@, n, props);
    assert(cells_lower(a.states@, b.states@, props, p));
    assert(cells_lower(b.states@, c.states@, props, q));
    lemma_cell_scope_same(a.states@, b.states@, n, props);
    lemma_lowered_stmts_kept(a.load@, b.load@, ls, p, q);
    lemma_one_stmts(b.load@, b.load@, c.load@, ls, q);
    lemma_lowered_views_kept(a.body@, b.body@, ls, p, q);
    lemma_one_views(b.body@, b.body@, c.body@, ls, q);
    assert forall|i: int| 0 <= i < n implies (#[trigger] b.states@[i]).name@ == c.states@[i].name@
        && b.states@[i].ty@ == c.states@[i].ty@ && b.states@[i].line == c.states@[i].line
        && same_expr(b.states@[i].init, c.states@[i].init) by {
        let x = a.states@[i];
        let y = b.states@[i];
        let z = c.states@[i];
        let scope = cell_scope(a.states@, i, props);
        lemma_cell_scope_same(a.states@, b.states@, i, props);
        assert(x.name@ == y.name@);
        law_lowered_expr_is_kept(x.init, y.init, scope, p, q);
        law_lowered_expr_is_one(y.init, y.init, z.init, scope, q);
    }
}

proof fn lemma_api_twice(a: ApiNode, b: ApiNode, c: ApiNode, p: XeresProgram, q: XeresProgram)
    requires
        agrees(p, q),
        api_lowers(a, b, p),
        api_lowers(b, c, q),
    ensures
        same_api(b, c),
{
    assert forall|i: int| 0 <= i < b.routes@.len() implies same_route(
        #[trigger] b.routes@[i],
        c.routes@[i],
    ) by {
        let x = a.routes@[i];
        let y = b.routes@[i];
        let z = c.routes@[i];
        assert(route_lowers(x, y, p));
        let ls = body_scope(x.body);
        lemma_lowered_stmts_kept(x.body_stmts@, y.body_stmts@, ls, p, q);
        lemma_one_stmts(y.body_stmts@, y.body_stmts@, z.body_stmts@, ls, q);
    }
}

/// Lowering a program that has been lowered changes nothing.
pub proof fn law_lowering_twice_is_once(p: XeresProgram, once: XeresProgram, twice: XeresProgram)
    requires
        program_lowers(p, once),
        program_lowers(once, twice),
    ensures
        same_program(once, twice),
{
    assert(agrees(p, once)) by {
        assert forall|i: int| 0 <= i < p.functions@.len() implies (
        #[trigger] p.functions@[i]).name@ == once.functions@[i].name@ && opt_text(
            p.functions@[i].return_type,
        ) == opt_text(once.functions@[i].return_type) by {
            assert(function_lowers(p.functions@[i], once.functions@[i], p));
        }
    }
    assert forall|i: int| 0 <= i < once.functions@.len() implies same_function(
        #[trigger] once.functions@[i],
        twice.functions@[i],
    ) by {
        assert(function_lowers(p.functions@[i], once.functions@[i], p));
        lemma_function_twice(
            p.functions@[i],
            once.functions@[i],
            twice.functions@[i],
            p,
            once,
        );
    }
    assert forall|i: int| 0 <= i < once.screens@.len() implies same_screen(
        #[trigger] once.screens@[i],
        twice.screens@[i],
    ) by {
        assert(screen_lowers(p.screens@[i], once.screens@[i], p));
        lemma_screen_twice(p.screens@[i], once.screens@[i], twice.screens@[i], p, once);
    }
    assert forall|i: int| 0 <= i < once.apis@.len() implies same_api(
        #[trigger] once.apis@[i],
        twice.apis@[i],
    ) by {
        assert(api_lowers(p.apis@[i], once.apis@[i], p));
        lemma_api_twice(p.apis@[i], once.apis@[i], twice.apis@[i], p, once);
    }
}

} // verus!
