//! R30: `raw(...)` never wraps data that came in from the request surface.
use vstd::prelude::*;
use vstd::string::*;

use crate::ast::{Expr, Handler, Param, ScreenNode, ViewNode};
use crate::diagnostics::{clean, DiagView, Report};
use crate::messages;
use crate::text::Parts;

verus! {

/// The cells that the controls of a view node are bound to.
pub open spec fn bound_cells(v: ViewNode) -> Seq<Seq<char>>
    decreases v, 0int,
{
    match v {
        ViewNode::Element { bind, children, .. } => (match bind {
            Some(x) => seq![x@],
            None => Seq::empty(),
        }) + bound_cells_in(children@, children@.len() as int),
        ViewNode::For { body, .. } => bound_cells_in(body@, body@.len() as int),
        ViewNode::If { then_body, else_body, .. } => bound_cells_in(
            then_body@,
            then_body@.len() as int,
        ) + bound_cells_in(else_body@, else_body@.len() as int),
        ViewNode::Component { .. } => Seq::empty(),
    }
}

/// The cells that the controls of the first `n` view nodes are bound to.
pub open spec fn bound_cells_in(vs: Seq<ViewNode>, n: int) -> Seq<Seq<char>>
    decreases vs, n,
{
    if n <= 0 || n > vs.len() {
        Seq::empty()
    } else {
        bound_cells_in(vs, n - 1) + bound_cells(vs[n - 1])
    }
}

fn collect_in(vs: &Vec<ViewNode>) -> (r: Parts)
    ensures
        r@ == bound_cells_in(vs@, vs@.len() as int),
    decreases vs, 0int,
{
    let mut out = Parts::new();
    let mut i: usize = 0;
    while i < vs.len()
        invariant
            i <= vs.len(),
            out@ == bound_cells_in(vs@, i as int),
        decreases vs.len() - i,
    {
        let d = collect_bound_states(&vs[i]);
        out.extend(d);
        i = i + 1;
    }
    out
}

/// The cells that the controls of a view node are bound to: they hold what the user types.
pub fn collect_bound_states(v: &ViewNode) -> (r: Parts)
    ensures
        r@ == bound_cells(*v),
    decreases v, 0int,
{
    match v {
        ViewNode::Element { bind, children, .. } => {
            let mut out = Parts::new();
            if let Some(x) = bind {
                out.push(x.clone());
            }
            proof {
                assert(out@ =~= (match *bind {
                    Some(x) => seq![x@],
                    None => Seq::empty(),
                }));
            }
            let d = collect_in(children);
            out.extend(d);
            out
        },
        ViewNode::For { body, .. } => collect_in(body),
        ViewNode::If { then_body, else_body, .. } => {
            let mut out = collect_in(then_body);
            let d = collect_in(else_body);
            out.extend(d);
            out
        },
        ViewNode::Component { .. } => Parts::new(),
    }
}

/// Whether an expression is made from one of the untrusted names. `await`, `declassify` and function
/// calls give trusted results.
pub open spec fn untrusted(e: Expr, names: Seq<Seq<char>>) -> bool
    decreases e,
{
    match e {
        Expr::Ident(v) => names.contains(v@),
        Expr::Field { base, .. } => untrusted(*base, names),
        Expr::Unary { expr, .. } => untrusted(*expr, names),
        Expr::Binary { left, right, .. } => untrusted(*left, names) || untrusted(*right, names),
        Expr::Raw(inner) => untrusted(*inner, names),
        Expr::MethodCall { receiver, args, .. } => untrusted(*receiver, names) || exists|i: int|
            0 <= i < args@.len() && untrusted(#[trigger] args@[i], names),
        Expr::Record { fields, .. } => exists|i: int|
            0 <= i < fields@.len() && untrusted((#[trigger] fields@[i]).1, names),
        Expr::ListLit(items) => exists|i: int|
            0 <= i < items@.len() && untrusted(#[trigger] items@[i], names),
        Expr::Ternary { cond, yes, otherwise } => untrusted(*cond, names) || untrusted(*yes, names)
            || untrusted(*otherwise, names),
        Expr::Range { start, end } => untrusted(*start, names) || untrusted(*end, names),
        Expr::Index { base, index } => untrusted(*base, names) || untrusted(*index, names),
        Expr::Closure { body, .. } => untrusted(*body, names),
        Expr::Declassify(_) | Expr::Await(_) | Expr::Call { .. } => false,
        Expr::Int(_) | Expr::Float(_) | Expr::Str(_) | Expr::Bool(_) | Expr::NoneLit => false,
    }
}

fn any_untrusted(es: &Vec<Expr>, names: &Parts) -> (r: bool)
    ensures
        r == (exists|i: int| 0 <= i < es@.len() && untrusted(#[trigger] es@[i], names@)),
    decreases es,
{
    let mut i: usize = 0;
    while i < es.len()
        invariant
            i <= es.len(),
            forall|j: int| 0 <= j < i ==> !untrusted(#[trigger] es@[j], names@),
        decreases es.len() - i,
    {
        if expr_untrusted(&es[i], names) {
            return true;
        }
        i = i + 1;
    }
    false
}

fn any_field_untrusted(fs: &Vec<(String, Expr)>, names: &Parts) -> (r: bool)
    ensures
        r == (exists|i: int| 0 <= i < fs@.len() && untrusted((#[trigger] fs@[i]).1, names@)),
    decreases fs,
{
    let mut i: usize = 0;
    while i < fs.len()
        invariant
            i <= fs.len(),
            forall|j: int| 0 <= j < i ==> !untrusted((#[trigger] fs@[j]).1, names@),
        decreases fs.len() - i,
    {
        if expr_untrusted(&fs[i].1, names) {
            return true;
        }
        i = i + 1;
    }
    false
}

/// Whether an expression is made from one of the untrusted names.
pub fn expr_untrusted(e: &Expr, names: &Parts) -> (r: bool)
    ensures
        r == untrusted(*e, names@),
    decreases e,
{
    match e {
        Expr::Ident(v) => names.contains(v),
        Expr::Field { base, .. } => expr_untrusted(base, names),
        Expr::Unary { expr, .. } => expr_untrusted(expr, names),
        Expr::Binary { left, right, .. } => expr_untrusted(left, names) || expr_untrusted(
            right,
            names,
        ),
        Expr::Raw(inner) => expr_untrusted(inner, names),
        Expr::MethodCall { receiver, args, .. } => expr_untrusted(receiver, names)
            || any_untrusted(args, names),
        Expr::Record { fields, .. } => any_field_untrusted(fields, names),
        Expr::ListLit(items) => any_untrusted(items, names),
        Expr::Ternary { cond, yes, otherwise } => expr_untrusted(cond, names) || expr_untrusted(
            yes,
            names,
        ) || expr_untrusted(otherwise, names),
        Expr::Range { start, end } => expr_untrusted(start, names) || expr_untrusted(end, names),
        Expr::Index { base, index } => expr_untrusted(base, names) || expr_untrusted(index, names),
        Expr::Closure { body, .. } => expr_untrusted(body, names),
        Expr::Declassify(_) | Expr::Await(_) | Expr::Call { .. } => false,
        Expr::Int(_) | Expr::Float(_) | Expr::Str(_) | Expr::Bool(_) | Expr::NoneLit => false,
    }
}

/// What a screen is called in a message.
pub open spec fn kind_text(s: ScreenNode) -> Seq<char> {
    if s.is_component {
        "component"@
    } else {
        "screen"@
    }
}

/// What a screen is called in a message.
pub fn kind_label(s: &ScreenNode) -> (r: &'static str)
    ensures
        r@ == kind_text(*s),
{
    if s.is_component {
        "component"
    } else {
        "screen"
    }
}

/// R30 on an expression. What `declassify` releases is not looked into.
pub open spec fn raw_diags(e: Expr, names: Seq<Seq<char>>, s: ScreenNode) -> Seq<DiagView>
    decreases e, 0int,
{
    match e {
        Expr::Raw(inner) => (if untrusted(*inner, names) {
            messages::raw_taint_diag(kind_text(s), s.name@, s.line as nat)
        } else {
            clean()
        }) + raw_diags(*inner, names, s),
        Expr::Declassify(_) => clean(),
        Expr::Field { base, .. } => raw_diags(*base, names, s),
        Expr::Unary { expr, .. } => raw_diags(*expr, names, s),
        Expr::Binary { left, right, .. } => raw_diags(*left, names, s) + raw_diags(
            *right,
            names,
            s,
        ),
        Expr::Await(inner) => raw_diags(*inner, names, s),
        Expr::MethodCall { receiver, args, .. } => raw_diags(*receiver, names, s) + raw_all(
            args@,
            args@.len() as int,
            names,
            s,
        ),
        Expr::Call { args, .. } => raw_all(args@, args@.len() as int, names, s),
        Expr::Record { fields, .. } => raw_fields(fields@, fields@.len() as int, names, s),
        Expr::ListLit(items) => raw_all(items@, items@.len() as int, names, s),
        Expr::Ternary { cond, yes, otherwise } => raw_diags(*cond, names, s) + raw_diags(
            *yes,
            names,
            s,
        ) + raw_diags(*otherwise, names, s),
        Expr::Range { start, end } => raw_diags(*start, names, s) + raw_diags(*end, names, s),
        Expr::Index { base, index } => raw_diags(*base, names, s) + raw_diags(*index, names, s),
        Expr::Closure { body, .. } => raw_diags(*body, names, s),
        Expr::Int(_)
        | Expr::Float(_)
        | Expr::Str(_)
        | Expr::Bool(_)
        | Expr::Ident(_)
        | Expr::NoneLit => clean(),
    }
}

/// R30 on the first `n` expressions.
pub open spec fn raw_all(es: Seq<Expr>, n: int, names: Seq<Seq<char>>, s: ScreenNode) -> Seq<
    DiagView,
>
    decreases es, n,
{
    if n <= 0 || n > es.len() {
        clean()
    } else {
        raw_all(es, n - 1, names, s) + raw_diags(es[n - 1], names, s)
    }
}

/// R30 on the values of the first `n` fields.
pub open spec fn raw_fields(
    fs: Seq<(String, Expr)>,
    n: int,
    names: Seq<Seq<char>>,
    s: ScreenNode,
) -> Seq<DiagView>
    decreases fs, n,
{
    if n <= 0 || n > fs.len() {
        clean()
    } else {
        raw_fields(fs, n - 1, names, s) + raw_diags(fs[n - 1].1, names, s)
    }
}

fn raw_walk_all(es: &Vec<Expr>, names: &Parts, s: &ScreenNode) -> (r: Report)
    ensures
        r@ == raw_all(es@, es@.len() as int, names@, *s),
    decreases es, 0int,
{
    let mut out = Report::new();
    let mut i: usize = 0;
    while i < es.len()
        invariant
            i <= es.len(),
            out@ == raw_all(es@, i as int, names@, *s),
        decreases es.len() - i,
    {
        let d = raw_walk_expr(&es[i], names, s);
        out.append(d);
        i = i + 1;
    }
    out
}

fn raw_walk_fields(fs: &Vec<(String, Expr)>, names: &Parts, s: &ScreenNode) -> (r: Report)
    ensures
        r@ == raw_fields(fs@, fs@.len() as int, names@, *s),
    decreases fs, 0int,
{
    let mut out = Report::new();
    let mut i: usize = 0;
    while i < fs.len()
        invariant
            i <= fs.len(),
            out@ == raw_fields(fs@, i as int, names@, *s),
        decreases fs.len() - i,
    {
        let d = raw_walk_expr(&fs[i].1, names, s);
        out.append(d);
        i = i + 1;
    }
    out
}

/// R30: checks the uses of `raw` in an expression.
pub fn raw_walk_expr(e: &Expr, names: &Parts, s: &ScreenNode) -> (r: Report)
    ensures
        r@ == raw_diags(*e, names@, *s),
    decreases e, 0int,
{
    match e {
        Expr::Raw(inner) => {
            let mut out = if expr_untrusted(inner, names) {
                messages::raw_taint(kind_label(s), &s.name, s.line)
            } else {
                Report::new()
            };
            let d = raw_walk_expr(inner, names, s);
            out.append(d);
            out
        },
        Expr::Declassify(_) => Report::new(),
        Expr::Field { base, .. } => raw_walk_expr(base, names, s),
        Expr::Unary { expr, .. } => raw_walk_expr(expr, names, s),
        Expr::Binary { left, right, .. } => {
            let mut out = raw_walk_expr(left, names, s);
            let d = raw_walk_expr(right, names, s);
            out.append(d);
            out
        },
        Expr::Await(inner) => raw_walk_expr(inner, names, s),
        Expr::MethodCall { receiver, args, .. } => {
            let mut out = raw_walk_expr(receiver, names, s);
            let d = raw_walk_all(args, names, s);
            out.append(d);
            out
        },
        Expr::Call { args, .. } => raw_walk_all(args, names, s),
        Expr::Record { fields, .. } => raw_walk_fields(fields, names, s),
        Expr::ListLit(items) => raw_walk_all(items, names, s),
        Expr::Ternary { cond, yes, otherwise } => {
            let mut out = raw_walk_expr(cond, names, s);
            let y = raw_walk_expr(yes, names, s);
            out.append(y);
            let o = raw_walk_expr(otherwise, names, s);
            out.append(o);
            out
        },
        Expr::Range { start, end } => {
            let mut out = raw_walk_expr(start, names, s);
            let d = raw_walk_expr(end, names, s);
            out.append(d);
            out
        },
        Expr::Index { base, index } => {
            let mut out = raw_walk_expr(base, names, s);
            let d = raw_walk_expr(index, names, s);
            out.append(d);
            out
        },
        Expr::Closure { body, .. } => raw_walk_expr(body, names, s),
        Expr::Int(_)
        | Expr::Float(_)
        | Expr::Str(_)
        | Expr::Bool(_)
        | Expr::Ident(_)
        | Expr::NoneLit => Report::new(),
    }
}

/// R30 on an expression slot.
pub open spec fn raw_slot(e: Option<Expr>, names: Seq<Seq<char>>, s: ScreenNode) -> Seq<DiagView> {
    match e {
        Some(x) => raw_diags(x, names, s),
        None => clean(),
    }
}

fn raw_walk_slot(e: &Option<Expr>, names: &Parts, s: &ScreenNode) -> (r: Report)
    ensures
        r@ == raw_slot(*e, names@, *s),
{
    match e {
        Some(x) => raw_walk_expr(x, names, s),
        None => Report::new(),
    }
}

/// The untrusted names inside a loop: its variable too, where it runs over untrusted data.
pub open spec fn loop_names(names: Seq<Seq<char>>, var: Seq<char>, iter: Expr) -> Seq<Seq<char>> {
    if untrusted(iter, names) {
        names.push(var)
    } else {
        names
    }
}

/// R30 on a view node.
pub open spec fn raw_view(v: ViewNode, names: Seq<Seq<char>>, s: ScreenNode) -> Seq<DiagView>
    decreases v, 0int,
{
    match v {
        ViewNode::Element { arg, style, event, children, .. } => raw_slot(arg, names, s) + raw_slot(
            style,
            names,
            s,
        ) + (match event {
            Some(Handler::Call(e)) => raw_diags(e, names, s),
            _ => clean(),
        }) + raw_views(children@, children@.len() as int, names, s),
        ViewNode::For { var, iter, body } => raw_diags(iter, names, s) + raw_views(
            body@,
            body@.len() as int,
            loop_names(names, var@, iter),
            s,
        ),
        ViewNode::If { cond, then_body, else_body } => raw_diags(cond, names, s) + raw_views(
            then_body@,
            then_body@.len() as int,
            names,
            s,
        ) + raw_views(else_body@, else_body@.len() as int, names, s),
        ViewNode::Component { args, .. } => raw_fields(args@, args@.len() as int, names, s),
    }
}

/// R30 on the first `n` view nodes.
pub open spec fn raw_views(
    vs: Seq<ViewNode>,
    n: int,
    names: Seq<Seq<char>>,
    s: ScreenNode,
) -> Seq<DiagView>
    decreases vs, n,
{
    if n <= 0 || n > vs.len() {
        clean()
    } else {
        raw_views(vs, n - 1, names, s) + raw_view(vs[n - 1], names, s)
    }
}

fn raw_walk_views(vs: &Vec<ViewNode>, names: &Parts, s: &ScreenNode) -> (r: Report)
    ensures
        r@ == raw_views(vs@, vs@.len() as int, names@, *s),
    decreases vs, 0int,
{
    let mut out = Report::new();
    let mut i: usize = 0;
    while i < vs.len()
        invariant
            i <= vs.len(),
            out@ == raw_views(vs@, i as int, names@, *s),
        decreases vs.len() - i,
    {
        let d = raw_walk_view(&vs[i], names, s);
        out.append(d);
        i = i + 1;
    }
    out
}

/// R30: checks the uses of `raw` in a view node.
pub fn raw_walk_view(v: &ViewNode, names: &Parts, s: &ScreenNode) -> (r: Report)
    ensures
        r@ == raw_view(*v, names@, *s),
    decreases v, 0int,
{
    match v {
        ViewNode::Element { arg, style, event, children, .. } => {
            let mut out = raw_walk_slot(arg, names, s);
            out.append(raw_walk_slot(style, names, s));
            let e = match event {
                Some(Handler::Call(e)) => raw_walk_expr(e, names, s),
                _ => Report::new(),
            };
            out.append(e);
            let d = raw_walk_views(children, names, s);
            out.append(d);
            out
        },
        ViewNode::For { var, iter, body } => {
            let mut out = raw_walk_expr(iter, names, s);
            let mut inner = names.copy();
            if expr_untrusted(iter, names) {
                inner.push(var.clone());
            }
            let d = raw_walk_views(body, &inner, s);
            out.append(d);
            out
        },
        ViewNode::If { cond, then_body, else_body } => {
            let mut out = raw_walk_expr(cond, names, s);
            let t = raw_walk_views(then_body, names, s);
            out.append(t);
            let e = raw_walk_views(else_body, names, s);
            out.append(e);
            out
        },
        ViewNode::Component { args, .. } => raw_walk_fields(args, names, s),
    }
}

/// The names of the first `n` parameters.
pub open spec fn param_names(ps: Seq<Param>, n: int) -> Seq<Seq<char>>
    decreases n,
{
    if n <= 0 || n > ps.len() {
        Seq::empty()
    } else {
        param_names(ps, n - 1).push(ps[n - 1].name@)
    }
}

/// The untrusted names of a screen: its props, and the cells that its controls are bound to.
pub open spec fn inbound_names(s: ScreenNode) -> Seq<Seq<char>> {
    param_names(s.params@, s.params@.len() as int) + bound_cells_in(s.body@, s.body@.len() as int)
}

/// R30 on a screen.
pub open spec fn raw_taint_diags(s: ScreenNode) -> Seq<DiagView> {
    raw_views(s.body@, s.body@.len() as int, inbound_names(s), s)
}

/// R30: checks the uses of `raw` on a screen.
pub fn check_raw_taint(s: &ScreenNode) -> (r: Report)
    ensures
        r@ == raw_taint_diags(*s),
{
    let mut names = Parts::new();
    let mut i: usize = 0;
    while i < s.params.len()
        invariant
            i <= s.params.len(),
            names@ == param_names(s.params@, i as int),
        decreases s.params.len() - i,
    {
        names.push(s.params[i].name.clone());
        i = i + 1;
    }
    names.extend(collect_in(&s.body));
    raw_walk_views(&s.body, &names, s)
}

} // verus!
