//! Typed lowering: Decimal operators, text concatenation and list membership become builtin calls
//! that every backend emits the same way.
use vstd::prelude::*;
use vstd::string::*;

use crate::ast::{
    ApiNode, ApiRoute, BinOp, Expr, FunctionNode, Handler, MatchArm, MatchPat, Param, ScreenNode,
    StateNode, Stmt, ViewNode, XeresProgram,
};
use crate::flow::let_scope;
use crate::resolve::{
    arith_type, bind_copy, builtin_type, copy_locals, copy_opt, elem_of, element_type, element_type_of, is_type,
    list_elem, opt_text, resolve_type, type_of, typed, Local, LocalView, Locals,
};
use crate::strmap::StrMap;
use crate::table::bool_op;
use crate::taint::{let_type_of, param_locals, param_scope};
use crate::text::same;
use crate::views::cell_scope;

verus! {

/// The builtin that an operator on these types is lowered to.
pub open spec fn lowered_callee(op: BinOp, lt: Option<Seq<char>>, rt: Option<Seq<char>>) -> Option<
    Seq<char>,
> {
    let l = lt == Some("Decimal"@);
    let r = rt == Some("Decimal"@);
    match op {
        BinOp::Add => if l && r {
            Some("__dec_add"@)
        } else if lt == Some("String"@) || rt == Some("String"@) {
            Some("__str_concat"@)
        } else {
            None
        },
        BinOp::Sub => if l && r {
            Some("__dec_sub"@)
        } else {
            None
        },
        BinOp::Mul => if (l && r) || (l && rt == Some("Int"@)) || (r && lt == Some("Int"@)) {
            Some("__dec_mul"@)
        } else {
            None
        },
        BinOp::Lt => if l && r {
            Some("__dec_lt"@)
        } else {
            None
        },
        BinOp::Gt => if l && r {
            Some("__dec_gt"@)
        } else {
            None
        },
        BinOp::LtEq => if l && r {
            Some("__dec_le"@)
        } else {
            None
        },
        BinOp::GtEq => if l && r {
            Some("__dec_ge"@)
        } else {
            None
        },
        BinOp::Div | BinOp::Eq | BinOp::NotEq | BinOp::And | BinOp::Or => None,
    }
}

/// The builtin that an operator on these types is lowered to.
pub fn dec_lowering_callee(op: BinOp, lt: &Option<String>, rt: &Option<String>) -> (r: Option<
    &'static str,
>)
    ensures
        match r {
            Some(c) => lowered_callee(op, opt_text(*lt), opt_text(*rt)) == Some(c@),
            None => lowered_callee(op, opt_text(*lt), opt_text(*rt)) is None,
        },
{
    let l = is_type(lt, "Decimal");
    let r = is_type(rt, "Decimal");
    match op {
        BinOp::Add => if l && r {
            Some("__dec_add")
        } else if is_type(lt, "String") || is_type(rt, "String") {
            Some("__str_concat")
        } else {
            None
        },
        BinOp::Sub => if l && r {
            Some("__dec_sub")
        } else {
            None
        },
        BinOp::Mul => if (l && r) || (l && is_type(rt, "Int")) || (r && is_type(lt, "Int")) {
            Some("__dec_mul")
        } else {
            None
        },
        BinOp::Lt => if l && r {
            Some("__dec_lt")
        } else {
            None
        },
        BinOp::Gt => if l && r {
            Some("__dec_gt")
        } else {
            None
        },
        BinOp::LtEq => if l && r {
            Some("__dec_le")
        } else {
            None
        },
        BinOp::GtEq => if l && r {
            Some("__dec_ge")
        } else {
            None
        },
        BinOp::Div | BinOp::Eq | BinOp::NotEq | BinOp::And | BinOp::Or => None,
    }
}

/// Whether the arguments are one closure over the elements: `map` and `filter`.
pub open spec fn maps_elements(method: Seq<char>, args: Seq<Expr>) -> bool {
    (method == "map"@ || method == "filter"@) && args.len() == 1 && args[0] is Closure
        && args[0]->Closure_params@.len() == 1
}

/// Whether the arguments are a start value and a closure over it and the elements: `reduce`.
pub open spec fn folds_elements(method: Seq<char>, args: Seq<Expr>) -> bool {
    method == "reduce"@ && args.len() == 2 && args[1] is Closure && args[1]->Closure_params@.len()
        == 2
}

/// Whether `b` is what `a` is lowered to with these names in scope. Operands are lowered before the
/// types that decide are looked at.
pub open spec fn lowers(a: Expr, b: Expr, ls: Map<Seq<char>, LocalView>, p: XeresProgram) -> bool
    decreases a,
{
    match a {
        Expr::Binary { op, left, right } => match b {
            Expr::Call { callee, args } => {
                &&& args@.len() == 2
                &&& lowers(*left, args@[0], ls, p)
                &&& lowers(*right, args@[1], ls, p)
                &&& lowered_callee(op, type_of(args@[0], ls, p), type_of(args@[1], ls, p)) == Some(
                    callee@,
                )
            },
            Expr::Binary { op: o, left: l, right: r } => {
                &&& o == op
                &&& lowers(*left, *l, ls, p)
                &&& lowers(*right, *r, ls, p)
                &&& lowered_callee(op, type_of(*l, ls, p), type_of(*r, ls, p)) is None
            },
            _ => false,
        },
        Expr::MethodCall { receiver, method, args } => match b {
            Expr::MethodCall { receiver: r, method: m, args: bs } => {
                let elem = elem_of(type_of(*r, ls, p));
                &&& m@ == method@
                &&& lowers(*receiver, *r, ls, p)
                &&& if elem is Some && maps_elements(method@, args@) {
                    &&& bs@.len() == 1
                    &&& bs@[0] is Closure
                    &&& bs@[0]->Closure_params@ == args@[0]->Closure_params@
                    &&& lowers(
                        *args@[0]->Closure_body,
                        *bs@[0]->Closure_body,
                        ls.insert(args@[0]->Closure_params@[0]@, typed(elem)),
                        p,
                    )
                } else if elem is Some && folds_elements(method@, args@) {
                    &&& bs@.len() == 2
                    &&& lowers(args@[0], bs@[0], ls, p)
                    &&& bs@[1] is Closure
                    &&& bs@[1]->Closure_params@ == args@[1]->Closure_params@
                    &&& lowers(
                        *args@[1]->Closure_body,
                        *bs@[1]->Closure_body,
                        ls.insert(
                            args@[1]->Closure_params@[0]@,
                            typed(type_of(bs@[0], ls, p)),
                        ).insert(args@[1]->Closure_params@[1]@, typed(elem)),
                        p,
                    )
                } else {
                    &&& all_lower(args@, bs@, ls, p)
                    &&& !(elem is Some && method@ == "contains"@ && args@.len() == 1)
                }
            },
            Expr::Call { callee, args: bs } => {
                &&& callee@ == "__list_contains"@
                &&& method@ == "contains"@
                &&& args@.len() == 1
                &&& bs@.len() == 2
                &&& lowers(*receiver, bs@[0], ls, p)
                &&& elem_of(type_of(bs@[0], ls, p)) is Some
                &&& lowers(args@[0], bs@[1], ls, p)
            },
            _ => false,
        },
        Expr::Field { base, field } => {
            &&& b matches Expr::Field { base: x, field: f }
            &&& f@ == field@
            &&& lowers(*base, *x, ls, p)
        },
        Expr::Call { callee, args } => {
            &&& b matches Expr::Call { callee: c, args: bs }
            &&& c@ == callee@
            &&& all_lower(args@, bs@, ls, p)
        },
        Expr::Unary { op, expr } => {
            &&& b matches Expr::Unary { op: o, expr: x }
            &&& o == op
            &&& lowers(*expr, *x, ls, p)
        },
        Expr::Declassify(inner) => {
            &&& b matches Expr::Declassify(x)
            &&& lowers(*inner, *x, ls, p)
        },
        Expr::Raw(inner) => {
            &&& b matches Expr::Raw(x)
            &&& lowers(*inner, *x, ls, p)
        },
        Expr::Await(inner) => {
            &&& b matches Expr::Await(x)
            &&& lowers(*inner, *x, ls, p)
        },
        Expr::Record { name, fields } => {
            &&& b matches Expr::Record { name: n, fields: fs }
            &&& n@ == name@
            &&& fields_lower(fields@, fs@, ls, p)
        },
        Expr::ListLit(items) => {
            &&& b matches Expr::ListLit(bs)
            &&& all_lower(items@, bs@, ls, p)
        },
        Expr::Ternary { cond, yes, otherwise } => {
            &&& b matches Expr::Ternary { cond: c, yes: y, otherwise: o }
            &&& lowers(*cond, *c, ls, p)
            &&& lowers(*yes, *y, ls, p)
            &&& lowers(*otherwise, *o, ls, p)
        },
        Expr::Range { start, end } => {
            &&& b matches Expr::Range { start: s, end: e }
            &&& lowers(*start, *s, ls, p)
            &&& lowers(*end, *e, ls, p)
        },
        Expr::Closure { params, body } => {
            &&& b matches Expr::Closure { params: q, body: x }
            &&& q@ == params@
            &&& lowers(*body, *x, ls, p)
        },
        Expr::Index { base, index } => {
            &&& b matches Expr::Index { base: x, index: i }
            &&& lowers(*base, *x, ls, p)
            &&& lowers(*index, *i, ls, p)
        },
        Expr::Int(_)
        | Expr::Float(_)
        | Expr::Str(_)
        | Expr::Bool(_)
        | Expr::Ident(_)
        | Expr::NoneLit => b == a,
    }
}

/// Whether each of `bs` is what its counterpart in `es` is lowered to.
pub open spec fn all_lower(
    es: Seq<Expr>,
    bs: Seq<Expr>,
    ls: Map<Seq<char>, LocalView>,
    p: XeresProgram,
) -> bool
    decreases es,
{
    es.len() == bs.len() && forall|i: int|
        0 <= i < es.len() ==> lowers(#[trigger] es[i], bs[i], ls, p)
}

/// Whether each of `bs` has the name of its counterpart, and the value that it is lowered to.
pub open spec fn fields_lower(
    fs: Seq<(String, Expr)>,
    bs: Seq<(String, Expr)>,
    ls: Map<Seq<char>, LocalView>,
    p: XeresProgram,
) -> bool
    decreases fs,
{
    fs.len() == bs.len() && forall|i: int|
        0 <= i < fs.len() ==> (#[trigger] fs[i]).0@ == bs[i].0@ && lowers(fs[i].1, bs[i].1, ls, p)
}

pub(crate) fn copy_texts(ts: &Vec<String>) -> (r: Vec<String>)
    ensures
        r@ == ts@,
{
    let mut out: Vec<String> = Vec::new();
    let mut i: usize = 0;
    while i < ts.len()
        invariant
            i <= ts.len(),
            out@ == ts@.subrange(0, i as int),
        decreases ts.len() - i,
    {
        out.push(ts[i].clone());
        proof {
            assert(ts@.subrange(0, i + 1) =~= ts@.subrange(0, i as int).push(ts@[i as int]));
        }
        i = i + 1;
    }
    proof {
        assert(ts@.subrange(0, i as int) =~= ts@);
    }
    out
}

fn lower_all(es: &Vec<Expr>, ls: &Locals, p: &XeresProgram) -> (r: Vec<Expr>)
    ensures
        all_lower(es@, r@, ls@, *p),
    decreases es, 0int,
{
    let mut out: Vec<Expr> = Vec::new();
    let mut i: usize = 0;
    while i < es.len()
        invariant
            i <= es.len(),
            out@.len() == i,
            forall|j: int| 0 <= j < i ==> lowers(#[trigger] es@[j], out@[j], ls@, *p),
        decreases es.len() - i,
    {
        let x = lower_expr(&es[i], ls, p);
        out.push(x);
        i = i + 1;
    }
    out
}

fn lower_fields(fs: &Vec<(String, Expr)>, ls: &Locals, p: &XeresProgram) -> (r: Vec<(String, Expr)>)
    ensures
        fields_lower(fs@, r@, ls@, *p),
    decreases fs, 0int,
{
    let mut out: Vec<(String, Expr)> = Vec::new();
    let mut i: usize = 0;
    while i < fs.len()
        invariant
            i <= fs.len(),
            out@.len() == i,
            forall|j: int|
                0 <= j < i ==> (#[trigger] fs@[j]).0@ == out@[j].0@ && lowers(
                    fs@[j].1,
                    out@[j].1,
                    ls@,
                    *p,
                ),
        decreases fs.len() - i,
    {
        let x = lower_expr(&fs[i].1, ls, p);
        out.push((fs[i].0.clone(), x));
        i = i + 1;
    }
    out
}

fn call2(callee: &str, a: Expr, b: Expr) -> (r: Expr)
    ensures
        r is Call,
        r->Call_callee@ == callee@,
        r->Call_args@.len() == 2,
        r->Call_args@[0] == a,
        r->Call_args@[1] == b,
{
    let mut args: Vec<Expr> = Vec::new();
    args.push(a);
    args.push(b);
    Expr::Call { callee: callee.to_owned(), args }
}

fn lower_method(e: &Expr, ls: &Locals, p: &XeresProgram) -> (r: Expr)
    requires
        e is MethodCall,
    ensures
        lowers(*e, r, ls@, *p),
    decreases e, 0int,
{
    match e {
        Expr::MethodCall { receiver, method, args } => {
            let recv = lower_expr(receiver, ls, p);
            let elem = list_elem(&resolve_type(&recv, ls, p));
            if elem.is_some() {
                if (same(method, "map") || same(method, "filter")) && args.len() == 1 {
                    if let Expr::Closure { params, body } = &args[0] {
                        if params.len() == 1 {
                            let inner = bind_copy(ls, &params[0], copy_opt(&elem));
                            let b = lower_expr(body, &inner, p);
                            let mut out: Vec<Expr> = Vec::new();
                            out.push(
                                Expr::Closure { params: copy_texts(params), body: Box::new(b) },
                            );
                            return Expr::MethodCall {
                                receiver: Box::new(recv),
                                method: method.clone(),
                                args: out,
                            };
                        }
                    }
                }
                if same(method, "reduce") && args.len() == 2 {
                    if let Expr::Closure { params, body } = &args[1] {
                        if params.len() == 2 {
                            let init = lower_expr(&args[0], ls, p);
                            let u = resolve_type(&init, ls, p);
                            let first = bind_copy(ls, &params[0], u);
                            let inner = bind_copy(&first, &params[1], copy_opt(&elem));
                            let b = lower_expr(body, &inner, p);
                            let mut out: Vec<Expr> = Vec::new();
                            out.push(init);
                            out.push(
                                Expr::Closure { params: copy_texts(params), body: Box::new(b) },
                            );
                            proof {
                                reveal_strlit("reduce");
                                reveal_strlit("map");
                                reveal_strlit("filter");
                                assert("reduce"@.len() != "map"@.len());
                                assert("reduce"@[0] != "filter"@[0]);
                            }
                            return Expr::MethodCall {
                                receiver: Box::new(recv),
                                method: method.clone(),
                                args: out,
                            };
                        }
                    }
                }
            }
            let bs = lower_all(args, ls, p);
            if elem.is_some() && same(method, "contains") && args.len() == 1 {
                let mut rest = bs;
                let needle = rest.remove(0);
                return call2("__list_contains", recv, needle);
            }
            Expr::MethodCall { receiver: Box::new(recv), method: method.clone(), args: bs }
        },
        _ => Expr::NoneLit,
    }
}

/// Lowers an expression with these names in scope.
pub fn lower_expr(e: &Expr, ls: &Locals, p: &XeresProgram) -> (r: Expr)
    ensures
        lowers(*e, r, ls@, *p),
    decreases e, 1int,
{
    match e {
        Expr::Binary { op, left, right } => {
            let l = lower_expr(left, ls, p);
            let r = lower_expr(right, ls, p);
            let lt = resolve_type(&l, ls, p);
            let rt = resolve_type(&r, ls, p);
            match dec_lowering_callee(*op, &lt, &rt) {
                Some(c) => call2(c, l, r),
                None => Expr::Binary { op: *op, left: Box::new(l), right: Box::new(r) },
            }
        },
        Expr::MethodCall { .. } => lower_method(e, ls, p),
        Expr::Field { base, field } => Expr::Field {
            base: Box::new(lower_expr(base, ls, p)),
            field: field.clone(),
        },
        Expr::Call { callee, args } => Expr::Call {
            callee: callee.clone(),
            args: lower_all(args, ls, p),
        },
        Expr::Unary { op, expr } => Expr::Unary { op: *op, expr: Box::new(lower_expr(expr, ls, p)) },
        Expr::Declassify(inner) => Expr::Declassify(Box::new(lower_expr(inner, ls, p))),
        Expr::Raw(inner) => Expr::Raw(Box::new(lower_expr(inner, ls, p))),
        Expr::Await(inner) => Expr::Await(Box::new(lower_expr(inner, ls, p))),
        Expr::Record { name, fields } => Expr::Record {
            name: name.clone(),
            fields: lower_fields(fields, ls, p),
        },
        Expr::ListLit(items) => Expr::ListLit(lower_all(items, ls, p)),
        Expr::Ternary { cond, yes, otherwise } => {
            let c = lower_expr(cond, ls, p);
            let y = lower_expr(yes, ls, p);
            let o = lower_expr(otherwise, ls, p);
            Expr::Ternary { cond: Box::new(c), yes: Box::new(y), otherwise: Box::new(o) }
        },
        Expr::Range { start, end } => {
            let s = lower_expr(start, ls, p);
            let t = lower_expr(end, ls, p);
            Expr::Range { start: Box::new(s), end: Box::new(t) }
        },
        Expr::Closure { params, body } => Expr::Closure {
            params: copy_texts(params),
            body: Box::new(lower_expr(body, ls, p)),
        },
        Expr::Index { base, index } => {
            let b = lower_expr(base, ls, p);
            let i = lower_expr(index, ls, p);
            Expr::Index { base: Box::new(b), index: Box::new(i) }
        },
        Expr::Int(i) => Expr::Int(*i),
        Expr::Float(t) => Expr::Float(t.clone()),
        Expr::Str(t) => Expr::Str(t.clone()),
        Expr::Bool(b) => Expr::Bool(*b),
        Expr::Ident(n) => Expr::Ident(n.clone()),
        Expr::NoneLit => Expr::NoneLit,
    }
}

/// A call that lowering does not keep the type of: list membership, whose builtin has no type of its
/// own, and a `map` that is not given exactly one argument.
pub open spec fn untyped_call(e: Expr) -> bool {
    match e {
        Expr::Call { callee, .. } => callee@ == "__list_contains"@,
        Expr::MethodCall { method, args, .. } => method@ == "map"@ && args@.len() != 1,
        _ => false,
    }
}

/// Whether such a call stands somewhere in an expression.
pub open spec fn holds_untyped_call(e: Expr) -> bool
    decreases e,
{
    untyped_call(e) || match e {
        Expr::Field { base, .. } => holds_untyped_call(*base),
        Expr::Unary { expr, .. } => holds_untyped_call(*expr),
        Expr::Binary { left, right, .. } => holds_untyped_call(*left) || holds_untyped_call(*right),
        Expr::Call { args, .. } => exists|i: int|
            0 <= i < args@.len() && holds_untyped_call(#[trigger] args@[i]),
        Expr::MethodCall { receiver, args, .. } => holds_untyped_call(*receiver) || exists|i: int|
            0 <= i < args@.len() && holds_untyped_call(#[trigger] args@[i]),
        Expr::Declassify(inner) => holds_untyped_call(*inner),
        Expr::Raw(inner) => holds_untyped_call(*inner),
        Expr::Await(inner) => holds_untyped_call(*inner),
        Expr::Record { fields, .. } => exists|i: int|
            0 <= i < fields@.len() && holds_untyped_call((#[trigger] fields@[i]).1),
        Expr::ListLit(items) => exists|i: int|
            0 <= i < items@.len() && holds_untyped_call(#[trigger] items@[i]),
        Expr::Ternary { cond, yes, otherwise } => holds_untyped_call(*cond) || holds_untyped_call(
            *yes,
        ) || holds_untyped_call(*otherwise),
        Expr::Range { start, end } => holds_untyped_call(*start) || holds_untyped_call(*end),
        Expr::Index { base, index } => holds_untyped_call(*base) || holds_untyped_call(*index),
        Expr::Closure { body, .. } => holds_untyped_call(*body),
        Expr::Int(_)
        | Expr::Float(_)
        | Expr::Str(_)
        | Expr::Bool(_)
        | Expr::Ident(_)
        | Expr::NoneLit => false,
    }
}

proof fn lemma_lowered_callee_type(op: BinOp, lt: Option<Seq<char>>, rt: Option<Seq<char>>)
    requires
        lowered_callee(op, lt, rt) is Some,
    ensures
        builtin_type(lowered_callee(op, lt, rt)->0) == (if bool_op(op) {
            Some("Bool"@)
        } else {
            arith_type(op, lt, rt)
        }),
{
    reveal_strlit("uid");
    reveal_strlit("hash");
    reveal_strlit("verify");
    reveal_strlit("now");
    reveal_strlit("decimal");
    reveal_strlit("__str_concat");
    reveal_strlit("__dec_add");
    reveal_strlit("__dec_sub");
    reveal_strlit("__dec_mul");
    reveal_strlit("__dec_lt");
    reveal_strlit("__dec_gt");
    reveal_strlit("__dec_le");
    reveal_strlit("__dec_ge");
    reveal_strlit("Decimal");
    reveal_strlit("String");
    reveal_strlit("Int");
    assert("Decimal"@.len() == 7 && "String"@.len() == 6 && "Int"@.len() == 3);
    let c = lowered_callee(op, lt, rt)->0;
    assert(c.len() >= 8 && c[0] == '_');
    assert(c != "uid"@ && c != "hash"@ && c != "verify"@ && c != "now"@ && c != "decimal"@);
    assert("__dec_add"@[6] == 'a' && "__dec_sub"@[6] == 's' && "__dec_mul"@[6] == 'm');
    assert("__dec_add"@.len() == 9 && "__dec_sub"@.len() == 9 && "__dec_mul"@.len() == 9);
    assert("__str_concat"@.len() == 12);
    assert("__dec_lt"@.len() == 8 && "__dec_gt"@.len() == 8);
    assert("__dec_le"@.len() == 8 && "__dec_ge"@.len() == 8);
}

pub proof fn lemma_lowers_ident(a: Expr, b: Expr, ls: Map<Seq<char>, LocalView>, p: XeresProgram)
    requires
        lowers(a, b, ls, p),
    ensures
        a is Ident || b is Ident ==> a == b,
        a is Closure <==> b is Closure,
        a is Closure ==> a->Closure_params@ == b->Closure_params@,
{
}

/// Lowering keeps the type of an expression: what was typed before lowering has the same type
/// behind it, so that the backends see the types that were checked.
pub proof fn law_lowering_keeps_types(
    a: Expr,
    b: Expr,
    ls: Map<Seq<char>, LocalView>,
    p: XeresProgram,
)
    requires
        lowers(a, b, ls, p),
        !holds_untyped_call(b),
    ensures
        type_of(b, ls, p) == type_of(a, ls, p),
    decreases a,
{
    match a {
        Expr::Binary { op, left, right } => match b {
            Expr::Call { callee, args } => {
                assert(!holds_untyped_call(args@[0]));
                assert(!holds_untyped_call(args@[1]));
                law_lowering_keeps_types(*left, args@[0], ls, p);
                law_lowering_keeps_types(*right, args@[1], ls, p);
                lemma_lowered_callee_type(
                    op,
                    type_of(args@[0], ls, p),
                    type_of(args@[1], ls, p),
                );
            },
            Expr::Binary { op: o, left: l, right: r } => {
                law_lowering_keeps_types(*left, *l, ls, p);
                law_lowering_keeps_types(*right, *r, ls, p);
            },
            _ => {},
        },
        Expr::MethodCall { receiver, method, args } => {
            if let Expr::MethodCall { receiver: r, method: m, args: bs } = b {
                law_lowering_keeps_types(*receiver, *r, ls, p);
                lemma_lowers_ident(*receiver, *r, ls, p);
                reveal_strlit("reduce");
                reveal_strlit("filter");
                assert("reduce"@[0] == 'r' && "filter"@[0] == 'f');
                let elem = elem_of(type_of(*r, ls, p));
                if elem is Some && maps_elements(method@, args@) {
                    assert(!holds_untyped_call(bs@[0]));
                    law_lowering_keeps_types(
                        *args@[0]->Closure_body,
                        *bs@[0]->Closure_body,
                        ls.insert(args@[0]->Closure_params@[0]@, typed(elem)),
                        p,
                    );
                } else if elem is Some && folds_elements(method@, args@) {
                    assert(!holds_untyped_call(bs@[0]));
                    law_lowering_keeps_types(args@[0], bs@[0], ls, p);
                } else {
                    assert(all_lower(args@, bs@, ls, p));
                    if args@.len() > 0 {
                        assert(!holds_untyped_call(bs@[0]));
                        law_lowering_keeps_types(args@[0], bs@[0], ls, p);
                        lemma_lowers_ident(args@[0], bs@[0], ls, p);
                    }
                }
            }
        },
        Expr::Field { base, field } => {
            if let Expr::Field { base: x, field: f } = b {
                lemma_lowers_ident(*base, *x, ls, p);
                law_lowering_keeps_types(*base, *x, ls, p);
            }
        },
        Expr::Call { callee, args } => {
            if let Expr::Call { callee: c, args: bs } = b {
                assert(all_lower(args@, bs@, ls, p));
                if args@.len() > 0 {
                    assert(!holds_untyped_call(bs@[0]));
                    law_lowering_keeps_types(args@[0], bs@[0], ls, p);
                }
            }
        },
        Expr::Unary { op, expr } => {
            if let Expr::Unary { op: o, expr: x } = b {
                law_lowering_keeps_types(*expr, *x, ls, p);
            }
        },
        Expr::Declassify(inner) => {
            if let Expr::Declassify(x) = b {
                law_lowering_keeps_types(*inner, *x, ls, p);
            }
        },
        Expr::Raw(inner) => {
            if let Expr::Raw(x) = b {
                law_lowering_keeps_types(*inner, *x, ls, p);
            }
        },
        Expr::Await(inner) => {
            if let Expr::Await(x) = b {
                law_lowering_keeps_types(*inner, *x, ls, p);
            }
        },
        Expr::ListLit(items) => {
            if let Expr::ListLit(bs) = b {
                assert(all_lower(items@, bs@, ls, p));
                if items@.len() > 0 {
                    assert(!holds_untyped_call(bs@[0]));
                    law_lowering_keeps_types(items@[0], bs@[0], ls, p);
                }
            }
        },
        Expr::Ternary { cond, yes, otherwise } => {
            if let Expr::Ternary { cond: c, yes: y, otherwise: o } = b {
                law_lowering_keeps_types(*yes, *y, ls, p);
                law_lowering_keeps_types(*otherwise, *o, ls, p);
            }
        },
        Expr::Index { base, index } => {
            if let Expr::Index { base: x, index: i } = b {
                law_lowering_keeps_types(*base, *x, ls, p);
            }
        },
        _ => {},
    }
}

/// Whether `b` is what a statement is lowered to with these names in scope.
pub open spec fn stmt_lowers(a: Stmt, b: Stmt, ls: Map<Seq<char>, LocalView>, p: XeresProgram) -> bool
    decreases a, 0int,
{
    match a {
        Stmt::Let { name, type_ann, value } => {
            &&& b matches Stmt::Let { name: n, type_ann: t, value: v }
            &&& n@ == name@
            &&& opt_text(t) == opt_text(type_ann)
            &&& lowers(value, v, ls, p)
        },
        Stmt::Assign { name, value } => {
            &&& b matches Stmt::Assign { name: n, value: v }
            &&& n@ == name@
            &&& lowers(value, v, ls, p)
        },
        Stmt::Return(e) => {
            &&& b matches Stmt::Return(x)
            &&& lowers(e, x, ls, p)
        },
        Stmt::Expr(e) => {
            &&& b matches Stmt::Expr(x)
            &&& lowers(e, x, ls, p)
        },
        Stmt::Try { body, handler } => {
            &&& b matches Stmt::Try { body: x, handler: h }
            &&& stmts_lower(body@, x@, ls, p)
            &&& stmts_lower(handler@, h@, ls, p)
        },
        Stmt::If { cond, then_body, else_body } => {
            &&& b matches Stmt::If { cond: c, then_body: t, else_body: e }
            &&& lowers(cond, c, ls, p)
            &&& stmts_lower(then_body@, t@, ls, p)
            &&& stmts_lower(else_body@, e@, ls, p)
        },
        Stmt::For { var, iter, body } => {
            &&& b matches Stmt::For { var: v, iter: i, body: x }
            &&& v@ == var@
            &&& lowers(iter, i, ls, p)
            &&& stmts_lower(body@, x@, ls.insert(var@, typed(element_type(i, ls, p))), p)
        },
        Stmt::While { cond, body } => {
            &&& b matches Stmt::While { cond: c, body: x }
            &&& lowers(cond, c, ls, p)
            &&& stmts_lower(body@, x@, ls, p)
        },
        Stmt::Match { scrutinee, arms } => {
            &&& b matches Stmt::Match { scrutinee: s, arms: bs }
            &&& lowers(scrutinee, s, ls, p)
            &&& arms_lower(arms@, bs@, ls, p)
        },
        Stmt::Transaction(body) => {
            &&& b matches Stmt::Transaction(x)
            &&& stmts_lower(body@, x@, ls, p)
        },
        Stmt::Break => b is Break,
        Stmt::Continue => b is Continue,
    }
}

/// Whether `bs` is what the statements are lowered to, each in the scope of those before it.
pub open spec fn stmts_lower(
    ss: Seq<Stmt>,
    bs: Seq<Stmt>,
    ls: Map<Seq<char>, LocalView>,
    p: XeresProgram,
) -> bool
    decreases ss, 0int,
{
    ss.len() == bs.len() && forall|i: int|
        0 <= i < ss.len() ==> stmt_lowers(#[trigger] ss[i], bs[i], let_scope(bs, i, ls, p), p)
}

/// Whether `bs` is what the arms are lowered to.
pub open spec fn arms_lower(
    arms: Seq<MatchArm>,
    bs: Seq<MatchArm>,
    ls: Map<Seq<char>, LocalView>,
    p: XeresProgram,
) -> bool
    decreases arms, 0int,
{
    arms.len() == bs.len() && forall|i: int|
        0 <= i < arms.len() ==> (#[trigger] arms[i]).pattern == bs[i].pattern && stmts_lower(
            arms[i].body@,
            bs[i].body@,
            ls,
            p,
        )
}

pub(crate) fn copy_pattern(m: &MatchPat) -> (r: MatchPat)
    ensures
        r == *m,
{
    match m {
        MatchPat::Wildcard => MatchPat::Wildcard,
        MatchPat::Variant(v) => MatchPat::Variant(v.clone()),
    }
}

fn lower_arms(arms: &Vec<MatchArm>, ls: &Locals, p: &XeresProgram) -> (r: Vec<MatchArm>)
    ensures
        arms_lower(arms@, r@, ls@, *p),
    decreases arms, 0int,
{
    let mut out: Vec<MatchArm> = Vec::new();
    let mut i: usize = 0;
    while i < arms.len()
        invariant
            i <= arms.len(),
            out@.len() == i,
            forall|j: int|
                0 <= j < i ==> (#[trigger] arms@[j]).pattern == out@[j].pattern && stmts_lower(
                    arms@[j].body@,
                    out@[j].body@,
                    ls@,
                    *p,
                ),
        decreases arms.len() - i,
    {
        let body = lower_stmts(&arms[i].body, ls, p);
        out.push(MatchArm { pattern: copy_pattern(&arms[i].pattern), body });
        i = i + 1;
    }
    out
}

fn lower_stmt(s: &Stmt, ls: &Locals, p: &XeresProgram) -> (r: Stmt)
    ensures
        stmt_lowers(*s, r, ls@, *p),
    decreases s, 0int,
{
    match s {
        Stmt::Let { name, type_ann, value } => Stmt::Let {
            name: name.clone(),
            type_ann: copy_opt(type_ann),
            value: lower_expr(value, ls, p),
        },
        Stmt::Assign { name, value } => Stmt::Assign {
            name: name.clone(),
            value: lower_expr(value, ls, p),
        },
        Stmt::Return(e) => Stmt::Return(lower_expr(e, ls, p)),
        Stmt::Expr(e) => Stmt::Expr(lower_expr(e, ls, p)),
        Stmt::Try { body, handler } => {
            let b = lower_stmts(body, ls, p);
            let h = lower_stmts(handler, ls, p);
            Stmt::Try { body: b, handler: h }
        },
        Stmt::If { cond, then_body, else_body } => {
            let c = lower_expr(cond, ls, p);
            let t = lower_stmts(then_body, ls, p);
            let e = lower_stmts(else_body, ls, p);
            Stmt::If { cond: c, then_body: t, else_body: e }
        },
        Stmt::For { var, iter, body } => {
            let i = lower_expr(iter, ls, p);
            let inner = bind_copy(ls, var, element_type_of(&i, ls, p));
            let b = lower_stmts(body, &inner, p);
            Stmt::For { var: var.clone(), iter: i, body: b }
        },
        Stmt::While { cond, body } => {
            let c = lower_expr(cond, ls, p);
            let b = lower_stmts(body, ls, p);
            Stmt::While { cond: c, body: b }
        },
        Stmt::Match { scrutinee, arms } => {
            let c = lower_expr(scrutinee, ls, p);
            let bs = lower_arms(arms, ls, p);
            Stmt::Match { scrutinee: c, arms: bs }
        },
        Stmt::Transaction(body) => Stmt::Transaction(lower_stmts(body, ls, p)),
        Stmt::Break => Stmt::Break,
        Stmt::Continue => Stmt::Continue,
    }
}

proof fn lemma_let_scope_prefix(
    xs: Seq<Stmt>,
    ys: Seq<Stmt>,
    n: int,
    ls: Map<Seq<char>, LocalView>,
    p: XeresProgram,
)
    requires
        0 <= n <= xs.len(),
        n <= ys.len(),
        forall|i: int| 0 <= i < n ==> xs[i] == ys[i],
    ensures
        let_scope(xs, n, ls, p) == let_scope(ys, n, ls, p),
    decreases n,
{
    if n > 0 {
        lemma_let_scope_prefix(xs, ys, n - 1, ls, p);
        assert(xs[n - 1] == ys[n - 1]);
    }
}

/// Lowers the statements of a body.
pub fn lower_stmts(ss: &Vec<Stmt>, ls: &Locals, p: &XeresProgram) -> (r: Vec<Stmt>)
    ensures
        stmts_lower(ss@, r@, ls@, *p),
    decreases ss, 0int,
{
    let mut out: Vec<Stmt> = Vec::new();
    let mut scope = copy_locals(ls);
    let mut i: usize = 0;
    while i < ss.len()
        invariant
            i <= ss.len(),
            out@.len() == i,
            scope@ == let_scope(out@, i as int, ls@, *p),
            forall|j: int|
                0 <= j < i ==> stmt_lowers(
                    #[trigger] ss@[j],
                    out@[j],
                    let_scope(out@, j, ls@, *p),
                    *p,
                ),
        decreases ss.len() - i,
    {
        let s = lower_stmt(&ss[i], &scope, p);
        let ghost before = out@;
        let ghost here = scope@;
        if let Stmt::Let { name, type_ann, value } = &s {
            let ty = let_type_of(type_ann, value, &scope, p);
            scope.insert(name.clone(), Local { ty, tainted: false });
        }
        out.push(s);
        proof {
            assert forall|j: int| 0 <= j <= i implies let_scope(out@, j, ls@, *p) == let_scope(
                before,
                j,
                ls@,
                *p,
            ) by {
                lemma_let_scope_prefix(out@, before, j, ls@, *p);
            }
            assert(here == let_scope(out@, i as int, ls@, *p));
            assert(out@[i as int] == s);
            assert(scope@ == let_scope(out@, i + 1, ls@, *p));
        }
        i = i + 1;
    }
    out
}

/// Whether `b` is what an expression slot is lowered to.
pub open spec fn slot_lowers(
    a: Option<Expr>,
    b: Option<Expr>,
    ls: Map<Seq<char>, LocalView>,
    p: XeresProgram,
) -> bool {
    match a {
        Some(x) => b is Some && lowers(x, b->0, ls, p),
        None => b is None,
    }
}

/// Whether `b` is what an event slot is lowered to.
pub open spec fn event_lowers(
    a: Option<Handler>,
    b: Option<Handler>,
    ls: Map<Seq<char>, LocalView>,
    p: XeresProgram,
) -> bool {
    match a {
        Some(Handler::Call(e)) => {
            &&& b matches Some(Handler::Call(x))
            &&& lowers(e, x, ls, p)
        },
        Some(Handler::Block(ss)) => {
            &&& b matches Some(Handler::Block(bs))
            &&& stmts_lower(ss@, bs@, ls, p)
        },
        None => b is None,
    }
}

fn lower_slot(a: &Option<Expr>, ls: &Locals, p: &XeresProgram) -> (r: Option<Expr>)
    ensures
        slot_lowers(*a, r, ls@, *p),
{
    match a {
        Some(x) => Some(lower_expr(x, ls, p)),
        None => None,
    }
}

fn lower_event(a: &Option<Handler>, ls: &Locals, p: &XeresProgram) -> (r: Option<Handler>)
    ensures
        event_lowers(*a, r, ls@, *p),
{
    match a {
        Some(Handler::Call(e)) => Some(Handler::Call(lower_expr(e, ls, p))),
        Some(Handler::Block(ss)) => Some(Handler::Block(lower_stmts(ss, ls, p))),
        None => None,
    }
}

/// Whether `b` is what a view node is lowered to.
pub open spec fn view_lowers(
    a: ViewNode,
    b: ViewNode,
    ls: Map<Seq<char>, LocalView>,
    p: XeresProgram,
) -> bool
    decreases a, 0int,
{
    match a {
        ViewNode::Element { tag, arg, style, bind, event, children } => {
            &&& b matches ViewNode::Element {
                tag: t,
                arg: x,
                style: st,
                bind: bi,
                event: ev,
                children: cs,
            }
            &&& t@ == tag@
            &&& opt_text(bi) == opt_text(bind)
            &&& slot_lowers(arg, x, ls, p)
            &&& slot_lowers(style, st, ls, p)
            &&& event_lowers(event, ev, ls, p)
            &&& views_lower(children@, cs@, ls, p)
        },
        ViewNode::For { var, iter, body } => {
            &&& b matches ViewNode::For { var: v, iter: i, body: x }
            &&& v@ == var@
            &&& lowers(iter, i, ls, p)
            &&& views_lower(body@, x@, ls.insert(var@, typed(element_type(i, ls, p))), p)
        },
        ViewNode::If { cond, then_body, else_body } => {
            &&& b matches ViewNode::If { cond: c, then_body: t, else_body: e }
            &&& lowers(cond, c, ls, p)
            &&& views_lower(then_body@, t@, ls, p)
            &&& views_lower(else_body@, e@, ls, p)
        },
        ViewNode::Component { name, args, line } => {
            &&& b matches ViewNode::Component { name: n, args: bs, line: l }
            &&& n@ == name@
            &&& l == line
            &&& fields_lower(args@, bs@, ls, p)
        },
    }
}

/// Whether `bs` is what the view nodes are lowered to.
pub open spec fn views_lower(
    vs: Seq<ViewNode>,
    bs: Seq<ViewNode>,
    ls: Map<Seq<char>, LocalView>,
    p: XeresProgram,
) -> bool
    decreases vs, 0int,
{
    vs.len() == bs.len() && forall|i: int|
        0 <= i < vs.len() ==> view_lowers(#[trigger] vs[i], bs[i], ls, p)
}

fn lower_views(vs: &Vec<ViewNode>, ls: &Locals, p: &XeresProgram) -> (r: Vec<ViewNode>)
    ensures
        views_lower(vs@, r@, ls@, *p),
    decreases vs, 0int,
{
    let mut out: Vec<ViewNode> = Vec::new();
    let mut i: usize = 0;
    while i < vs.len()
        invariant
            i <= vs.len(),
            out@.len() == i,
            forall|j: int| 0 <= j < i ==> view_lowers(#[trigger] vs@[j], out@[j], ls@, *p),
        decreases vs.len() - i,
    {
        let x = lower_view(&vs[i], ls, p);
        out.push(x);
        i = i + 1;
    }
    out
}

/// Lowers a view node.
pub fn lower_view(v: &ViewNode, ls: &Locals, p: &XeresProgram) -> (r: ViewNode)
    ensures
        view_lowers(*v, r, ls@, *p),
    decreases v, 0int,
{
    match v {
        ViewNode::Element { tag, arg, style, bind, event, children } => {
            let a = lower_slot(arg, ls, p);
            let st = lower_slot(style, ls, p);
            let ev = lower_event(event, ls, p);
            let cs = lower_views(children, ls, p);
            ViewNode::Element {
                tag: tag.clone(),
                arg: a,
                style: st,
                bind: copy_opt(bind),
                event: ev,
                children: cs,
            }
        },
        ViewNode::For { var, iter, body } => {
            let i = lower_expr(iter, ls, p);
            let inner = bind_copy(ls, var, element_type_of(&i, ls, p));
            let b = lower_views(body, &inner, p);
            ViewNode::For { var: var.clone(), iter: i, body: b }
        },
        ViewNode::If { cond, then_body, else_body } => {
            let c = lower_expr(cond, ls, p);
            let t = lower_views(then_body, ls, p);
            let e = lower_views(else_body, ls, p);
            ViewNode::If { cond: c, then_body: t, else_body: e }
        },
        ViewNode::Component { name, args, line } => ViewNode::Component {
            name: name.clone(),
            args: lower_fields(args, ls, p),
            line: *line,
        },
    }
}

pub(crate) fn copy_param(q: &Param) -> (r: Param)
    ensures
        r == *q,
{
    Param { name: q.name.clone(), ty: q.ty.clone() }
}

pub(crate) fn copy_params(ps: &Vec<Param>) -> (r: Vec<Param>)
    ensures
        r@ == ps@,
{
    let mut out: Vec<Param> = Vec::new();
    let mut i: usize = 0;
    while i < ps.len()
        invariant
            i <= ps.len(),
            out@ == ps@.subrange(0, i as int),
        decreases ps.len() - i,
    {
        out.push(copy_param(&ps[i]));
        proof {
            assert(ps@.subrange(0, i + 1) =~= ps@.subrange(0, i as int).push(ps@[i as int]));
        }
        i = i + 1;
    }
    proof {
        assert(ps@.subrange(0, i as int) =~= ps@);
    }
    out
}

/// Whether `b` is what a function is lowered to: its body, and nothing else.
pub open spec fn function_lowers(a: FunctionNode, b: FunctionNode, p: XeresProgram) -> bool {
    &&& b.env == a.env
    &&& b.is_auth == a.is_auth
    &&& b.is_pub == a.is_pub
    &&& b.name@ == a.name@
    &&& b.params@ == a.params@
    &&& opt_text(b.return_type) == opt_text(a.return_type)
    &&& b.line == a.line
    &&& b.module@ == a.module@
    &&& stmts_lower(a.body@, b.body@, param_scope(a.params@, a.params@.len() as int), p)
}

fn lower_function(f: &FunctionNode, p: &XeresProgram) -> (r: FunctionNode)
    ensures
        function_lowers(*f, r, *p),
{
    let ls = param_locals(&f.params);
    FunctionNode {
        env: f.env,
        is_auth: f.is_auth,
        is_pub: f.is_pub,
        name: f.name.clone(),
        params: copy_params(&f.params),
        return_type: copy_opt(&f.return_type),
        body: lower_stmts(&f.body, &ls, p),
        line: f.line,
        module: f.module.clone(),
    }
}

/// Whether `bs` is what the cells are lowered to, each in the scope of those before it.
pub open spec fn cells_lower(
    xs: Seq<StateNode>,
    bs: Seq<StateNode>,
    ls: Map<Seq<char>, LocalView>,
    p: XeresProgram,
) -> bool {
    xs.len() == bs.len() && forall|i: int|
        0 <= i < xs.len() ==> (#[trigger] xs[i]).name@ == bs[i].name@ && xs[i].ty@ == bs[i].ty@
            && xs[i].line == bs[i].line && lowers(xs[i].init, bs[i].init, cell_scope(xs, i, ls), p)
}

/// Whether `b` is what a screen is lowered to: its cells, its view and its loader.
pub open spec fn screen_lowers(a: ScreenNode, b: ScreenNode, p: XeresProgram) -> bool {
    let props = param_scope(a.params@, a.params@.len() as int);
    let ls = cell_scope(a.states@, a.states@.len() as int, props);
    &&& b.name@ == a.name@
    &&& b.params@ == a.params@
    &&& b.is_component == a.is_component
    &&& b.is_auth == a.is_auth
    &&& opt_text(b.route) == opt_text(a.route)
    &&& b.line == a.line
    &&& b.module@ == a.module@
    &&& cells_lower(a.states@, b.states@, props, p)
    &&& views_lower(a.body@, b.body@, ls, p)
    &&& stmts_lower(a.load@, b.load@, ls, p)
}

fn lower_screen(s: &ScreenNode, p: &XeresProgram) -> (r: ScreenNode)
    ensures
        screen_lowers(*s, r, *p),
{
    let mut ls = param_locals(&s.params);
    let ghost props = ls@;
    let mut states: Vec<StateNode> = Vec::new();
    let mut i: usize = 0;
    while i < s.states.len()
        invariant
            i <= s.states.len(),
            states@.len() == i,
            ls@ == cell_scope(s.states@, i as int, props),
            forall|j: int|
                0 <= j < i ==> (#[trigger] s.states@[j]).name@ == states@[j].name@
                    && s.states@[j].ty@ == states@[j].ty@ && s.states@[j].line == states@[j].line
                    && lowers(
                    s.states@[j].init,
                    states@[j].init,
                    cell_scope(s.states@, j, props),
                    *p,
                ),
        decreases s.states.len() - i,
    {
        let st = &s.states[i];
        let init = lower_expr(&st.init, &ls, p);
        states.push(
            StateNode { name: st.name.clone(), ty: st.ty.clone(), init, line: st.line },
        );
        ls.insert(st.name.clone(), Local { ty: Some(st.ty.clone()), tainted: false });
        i = i + 1;
    }
    ScreenNode {
        name: s.name.clone(),
        params: copy_params(&s.params),
        states,
        load: lower_stmts(&s.load, &ls, p),
        body: lower_views(&s.body, &ls, p),
        is_component: s.is_component,
        is_auth: s.is_auth,
        route: copy_opt(&s.route),
        line: s.line,
        module: s.module.clone(),
    }
}

/// The names in scope in the body of an inbound route.
pub open spec fn body_scope(body: Option<Param>) -> Map<Seq<char>, LocalView> {
    match body {
        Some(b) => Map::empty().insert(b.name@, typed(Some(b.ty@))),
        None => Map::empty(),
    }
}

/// Whether `b` is what an inbound route is lowered to: its body, and nothing else.
pub open spec fn route_lowers(a: ApiRoute, b: ApiRoute, p: XeresProgram) -> bool {
    &&& b.method@ == a.method@
    &&& b.path@ == a.path@
    &&& b.body == a.body
    &&& opt_text(b.return_type) == opt_text(a.return_type)
    &&& b.line == a.line
    &&& stmts_lower(a.body_stmts@, b.body_stmts@, body_scope(a.body), p)
}

fn lower_route(a: &ApiRoute, p: &XeresProgram) -> (r: ApiRoute)
    ensures
        route_lowers(*a, r, *p),
{
    let mut ls: Locals = StrMap::new();
    let body = match &a.body {
        Some(b) => {
            ls.insert(b.name.clone(), Local { ty: Some(b.ty.clone()), tainted: false });
            Some(copy_param(b))
        },
        None => None,
    };
    ApiRoute {
        method: a.method.clone(),
        path: a.path.clone(),
        body,
        return_type: copy_opt(&a.return_type),
        body_stmts: lower_stmts(&a.body_stmts, &ls, p),
        line: a.line,
    }
}

/// Whether `b` is what an inbound API is lowered to: the bodies of its routes.
pub open spec fn api_lowers(a: ApiNode, b: ApiNode, p: XeresProgram) -> bool {
    &&& b.base@ == a.base@
    &&& b.line == a.line
    &&& b.module@ == a.module@
    &&& a.routes@.len() == b.routes@.len()
    &&& forall|i: int|
        0 <= i < a.routes@.len() ==> route_lowers(#[trigger] a.routes@[i], b.routes@[i], p)
}

fn lower_api(a: &ApiNode, p: &XeresProgram) -> (r: ApiNode)
    ensures
        api_lowers(*a, r, *p),
{
    let mut routes: Vec<ApiRoute> = Vec::new();
    let mut i: usize = 0;
    while i < a.routes.len()
        invariant
            i <= a.routes.len(),
            routes@.len() == i,
            forall|j: int| 0 <= j < i ==> route_lowers(#[trigger] a.routes@[j], routes@[j], *p),
        decreases a.routes.len() - i,
    {
        routes.push(lower_route(&a.routes[i], p));
        i = i + 1;
    }
    ApiNode { base: a.base.clone(), routes, line: a.line, module: a.module.clone() }
}

/// Whether `b` is what a program is lowered to: its functions, screens and inbound APIs are, and all
/// other declarations are kept.
pub open spec fn program_lowers(a: XeresProgram, b: XeresProgram) -> bool {
    &&& b.models == a.models
    &&& b.enums == a.enums
    &&& b.states == a.states
    &&& b.endpoints == a.endpoints
    &&& b.imports == a.imports
    &&& b.requires_caps == a.requires_caps
    &&& b.themes == a.themes
    &&& b.styles == a.styles
    &&& b.functions@.len() == a.functions@.len()
    &&& forall|i: int|
        0 <= i < a.functions@.len() ==> function_lowers(#[trigger] a.functions@[i], b.functions@[i], a)
    &&& b.screens@.len() == a.screens@.len()
    &&& forall|i: int|
        0 <= i < a.screens@.len() ==> screen_lowers(#[trigger] a.screens@[i], b.screens@[i], a)
    &&& b.apis@.len() == a.apis@.len()
    &&& forall|i: int| 0 <= i < a.apis@.len() ==> api_lowers(#[trigger] a.apis@[i], b.apis@[i], a)
}

fn lower_functions(p: &XeresProgram) -> (r: Vec<FunctionNode>)
    ensures
        r@.len() == p.functions@.len(),
        forall|i: int|
            0 <= i < p.functions@.len() ==> function_lowers(#[trigger] p.functions@[i], r@[i], *p),
{
    let mut out: Vec<FunctionNode> = Vec::new();
    let mut i: usize = 0;
    while i < p.functions.len()
        invariant
            i <= p.functions.len(),
            out@.len() == i,
            forall|j: int| 0 <= j < i ==> function_lowers(#[trigger] p.functions@[j], out@[j], *p),
        decreases p.functions.len() - i,
    {
        out.push(lower_function(&p.functions[i], p));
        i = i + 1;
    }
    out
}

fn lower_screens(p: &XeresProgram) -> (r: Vec<ScreenNode>)
    ensures
        r@.len() == p.screens@.len(),
        forall|i: int|
            0 <= i < p.screens@.len() ==> screen_lowers(#[trigger] p.screens@[i], r@[i], *p),
{
    let mut out: Vec<ScreenNode> = Vec::new();
    let mut i: usize = 0;
    while i < p.screens.len()
        invariant
            i <= p.screens.len(),
            out@.len() == i,
            forall|j: int| 0 <= j < i ==> screen_lowers(#[trigger] p.screens@[j], out@[j], *p),
        decreases p.screens.len() - i,
    {
        out.push(lower_screen(&p.screens[i], p));
        i = i + 1;
    }
    out
}

fn lower_apis(p: &XeresProgram) -> (r: Vec<ApiNode>)
    ensures
        r@.len() == p.apis@.len(),
        forall|i: int| 0 <= i < p.apis@.len() ==> api_lowers(#[trigger] p.apis@[i], r@[i], *p),
{
    let mut out: Vec<ApiNode> = Vec::new();
    let mut i: usize = 0;
    while i < p.apis.len()
        invariant
            i <= p.apis.len(),
            out@.len() == i,
            forall|j: int| 0 <= j < i ==> api_lowers(#[trigger] p.apis@[j], out@[j], *p),
        decreases p.apis.len() - i,
    {
        out.push(lower_api(&p.apis[i], p));
        i = i + 1;
    }
    out
}

/// Lowers a whole program.
pub fn lower(program: &mut XeresProgram)
    ensures
        program_lowers(*old(program), *final(program)),
{
    let functions = lower_functions(program);
    let screens = lower_screens(program);
    let apis = lower_apis(program);
    program.functions = functions;
    program.screens = screens;
    program.apis = apis;
}

} // verus!
