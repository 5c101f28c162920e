//! The types mean what they say: what an expression comes to is a value of the type that it is given.
use vstd::prelude::*;
use vstd::string::*;

use crate::ast::{BinOp, Expr, Stmt, UnOp};
use crate::boundary::accepted;
use crate::builtin::{
    backwards, builtin_called, list_method_called, math_result, operated, text_method_called, text_values,
    PlanView,
};
use crate::interp::{
    call_at, eval_at, evals_at, ints_from, method_at, named_endpoint, settled, value_method_at, Env, TrackView,
    World,
};
use crate::resolve::{
    arith_type, capability_type, elem_of, inner_of, list_method, list_of, list_result, math_builtin,
    optional_of, string_method, string_result, type_of, LocalView,
};
use crate::check_laws::{in_function, law_accepted_return_fits};
use crate::scan::split_text;
use crate::table::{bool_op, collection_of, endpoint_of, fits};
use crate::types::generic_inner_spec;
use crate::value::ValueView;

verus! {

/// Whether a value is of a type: what an optional holds is of its inner type, and so is each item of a
/// list. The fields of a record are not looked into.
pub open spec fn is_of(v: ValueView, t: Seq<char>) -> bool
    decreases t.len(),
{
    if t == "Int"@ || t == "DateTime"@ {
        v is Int
    } else if t == "Float"@ {
        v is Int || v is Float
    } else if t == "String"@ || t == "Decimal"@ {
        v is Str
    } else if t == "Bool"@ {
        v is Bool
    } else if t == "None"@ {
        v is Null
    } else {
        match generic_inner_spec("Optional"@, t) {
            Some(inner) => v is Null || is_of(v, inner),
            None => match generic_inner_spec("List"@, t) {
                Some(inner) => v is List && forall|i: int|
                    0 <= i < v->List_0.len() ==> is_of(#[trigger] v->List_0[i], inner),
                None => !(v is Null),
            },
        }
    }
}

/// Whether each name of a known type stands for a value of that type.
pub open spec fn agrees(env: Env, ls: Map<Seq<char>, LocalView>) -> bool {
    forall|x: Seq<char>| #[trigger]
        ls.dom().contains(x) ==> (ls[x].ty matches Some(t) ==> env.dom().contains(x) && is_of(env[x], t))
}

/// Whether a type is one of numbers.
pub open spec fn is_numeric(t: Option<Seq<char>>) -> bool {
    t == Some("Int"@) || t == Some("Float"@) || t == Some("DateTime"@)
}

/// Whether an expression names a capability.
pub open spec fn names_capability(e: Expr, w: World) -> bool {
    e matches Expr::Ident(n) && {
        ||| n@ == "session"@
        ||| n@ == "log"@
        ||| n@ == "db"@
        ||| endpoint_of(w.program, n@) is Some
        ||| named_endpoint(w.program, e) is Some
        ||| collection_of(w.program, n@) is Some
    }
}

/// Whether an expression is made of values, operators and the methods of values, with operands of the types
/// that they are for.
pub open spec fn is_typed(e: Expr, ls: Map<Seq<char>, LocalView>, w: World) -> bool
    decreases e,
{
    let p = w.program;
    match e {
        Expr::Int(_) | Expr::Float(_) | Expr::Str(_) | Expr::Bool(_) | Expr::NoneLit => true,
        Expr::Ident(v) => true,
        Expr::Unary { op, expr } => is_typed(*expr, ls, w) && (op == UnOp::Neg ==> is_numeric(
            type_of(*expr, ls, p),
        )),
        Expr::Binary { op, left, right } => {
            let lt = type_of(*left, ls, p);
            let rt = type_of(*right, ls, p);
            &&& is_typed(*left, ls, w)
            &&& is_typed(*right, ls, w)
            &&& bool_op(op) || (is_numeric(lt) && is_numeric(rt)) || (op == BinOp::Add && (lt == Some(
                "String"@,
            ) || rt == Some("String"@)))
        },
        Expr::Declassify(inner) => is_typed(*inner, ls, w),
        Expr::Raw(inner) => is_typed(*inner, ls, w),
        Expr::Await(inner) => is_typed(*inner, ls, w),
        Expr::Ternary { cond, yes, otherwise } => is_typed(*yes, ls, w) && is_typed(*otherwise, ls, w)
            && type_of(*yes, ls, p) == type_of(*otherwise, ls, p),
        Expr::ListLit(items) => forall|i: int|
            0 <= i < items@.len() ==> is_typed(#[trigger] items@[i], ls, w) && type_of(items@[i], ls, p)
                == type_of(items@[0], ls, p),
        Expr::Range { start, end } => true,
        Expr::Index { base, .. } => is_typed(*base, ls, w),
        Expr::Call { callee, args } => math_builtin(callee@) && args@.len() > 0 && is_numeric(
            type_of(args@[0], ls, p),
        ),
        Expr::MethodCall { receiver, method, args } => {
            let rt = type_of(*receiver, ls, p);
            &&& !names_capability(*receiver, w)
            &&& is_typed(*receiver, ls, w)
            &&& {
                ||| rt == Some("String"@) && string_method(method@)
                ||| elem_of(rt) is Some && (method@ == "length"@ || method@ == "first"@ || method@ == "last"@
                    || method@ == "at"@ || method@ == "reverse"@)
                ||| inner_of(rt) is Some && method@ == "or"@ && args@.len() > 0 && is_typed(args@[0], ls, w)
                    && type_of(args@[0], ls, p) == inner_of(rt)
            }
        },
        _ => false,
    }
}

proof fn lemma_type_names()
    ensures
        "Int"@.len() == 3,
        "Float"@.len() == 5,
        "String"@.len() == 6,
        "Decimal"@.len() == 7,
        "DateTime"@.len() == 8,
        "Bool"@.len() == 4,
        "None"@.len() == 4,
        "Bool"@ != "None"@,
{
    reveal_strlit("Int");
    reveal_strlit("Float");
    reveal_strlit("None");
    reveal_strlit("Bool");
    reveal_strlit("String");
    reveal_strlit("Decimal");
    reveal_strlit("DateTime");
    assert("None"@[0] == 'N' && "Bool"@[0] == 'B');
}

pub(crate) proof fn lemma_list_type(t: Seq<char>)
    ensures
        generic_inner_spec("List"@, t) matches Some(inner) ==> t[0] == 'L' && t[4] == '<' && t.len() >= 6
            && generic_inner_spec("Optional"@, t) is None,
        generic_inner_spec("List"@, list_of(t)) == Some(t),
{
    reveal_strlit("List");
    reveal_strlit("List<");
    reveal_strlit("Optional");
    reveal_strlit(">");
    if generic_inner_spec("List"@, t) is Some {
        assert(t.subrange(0, 4) == "List"@);
        assert(t.subrange(0, 4)[0] == t[0]);
        if generic_inner_spec("Optional"@, t) is Some {
            assert(t.subrange(0, 8) == "Optional"@);
            assert(t.subrange(0, 8)[0] == t[0]);
        }
    }
    let d = list_of(t);
    assert(d.subrange(0, 4) =~= "List"@);
    assert(d.subrange(5, d.len() - 1) =~= t);
}

/// A value is of a list type where it is a list of the element type's values.
proof fn lemma_of_list(v: ValueView, t: Seq<char>, elem: Seq<char>)
    requires
        generic_inner_spec("List"@, t) == Some(elem),
    ensures
        is_of(v, t) <==> (v is List && forall|i: int|
            0 <= i < v->List_0.len() ==> is_of(#[trigger] v->List_0[i], elem)),
{
    lemma_type_names();
    lemma_list_type(t);
    reveal_strlit("String");
    reveal_strlit("Decimal");
    reveal_strlit("DateTime");
    assert("String"@[0] == 'S' && "Decimal"@[0] == 'D' && "DateTime"@[0] == 'D');
}

/// A value is of an optional type where it is missing or of the inner type.
proof fn lemma_of_optional(v: ValueView, t: Seq<char>, inner: Seq<char>)
    requires
        generic_inner_spec("Optional"@, t) == Some(inner),
    ensures
        is_of(v, t) <==> (v is Null || is_of(v, inner)),
{
    lemma_type_names();
    reveal_strlit("Optional");
}

pub(crate) proof fn lemma_optional_type(t: Seq<char>)
    ensures
        generic_inner_spec("Optional"@, optional_of(t)) == Some(t),
{
    reveal_strlit("Optional");
    reveal_strlit("Optional<");
    reveal_strlit(">");
    let d = optional_of(t);
    assert(d.subrange(0, 8) =~= "Optional"@);
    assert(d.subrange(9, d.len() - 1) =~= t);
}

proof fn lemma_items(
    w: World,
    es: Seq<Expr>,
    i: int,
    env: Env,
    at: TrackView,
    fuel: nat,
    seen: Seq<ValueView>,
    ls: Map<Seq<char>, LocalView>,
    t: Seq<char>,
)
    requires
        w.replies.len() == 0,
        agrees(env, ls),
        0 <= i <= es.len(),
        forall|j: int|
            0 <= j < es.len() ==> is_typed(#[trigger] es[j], ls, w) && type_of(es[j], ls, w.program) == Some(
                t,
            ),
        forall|j: int| 0 <= j < seen.len() ==> is_of(#[trigger] seen[j], t),
    ensures
        evals_at(w, es, i, env, at, fuel, seen).out matches Ok(vs) ==> forall|j: int|
            0 <= j < vs.len() ==> is_of(#[trigger] vs[j], t),
    decreases es, es.len() - i,
{
    if i < es.len() {
        let r = eval_at(w, es[i], env, at, fuel);
        law_expression_comes_to_its_type(w, es[i], env, at, fuel, ls);
        if let Ok(v) = r.out {
            lemma_items(w, es, i + 1, env, r.at, fuel, seen.push(v), ls, t);
        }
    }
}

proof fn lemma_operated(op: BinOp, l: ValueView, r: ValueView, lt: Option<Seq<char>>, rt: Option<Seq<char>>)
    requires
        lt matches Some(t) ==> is_of(l, t),
        rt matches Some(t) ==> is_of(r, t),
        (is_numeric(lt) && is_numeric(rt)) || (op == BinOp::Add && (lt == Some("String"@) || rt == Some(
            "String"@,
        ))),
        !bool_op(op),
    ensures
        operated(op, l, r) matches PlanView::Value(v) ==> (arith_type(op, lt, rt) matches Some(t) ==> is_of(
            v,
            t,
        )),
{
    lemma_type_names();
}

proof fn lemma_counted(s: int, n: int)
    ensures
        forall|i: int| 0 <= i < ints_from(s, n).len() ==> (#[trigger] ints_from(s, n)[i]) is Int,
    decreases n,
{
    if n > 0 {
        lemma_counted(s, n - 1);
    }
}

proof fn lemma_texts(ts: Seq<Seq<char>>, n: int)
    ensures
        forall|i: int| 0 <= i < text_values(ts, n).len() ==> (#[trigger] text_values(ts, n)[i]) is Str,
    decreases n,
{
    if 0 < n <= ts.len() {
        lemma_texts(ts, n - 1);
    }
}

proof fn lemma_backwards(vs: Seq<ValueView>, n: int, t: Seq<char>)
    requires
        forall|i: int| 0 <= i < vs.len() ==> is_of(#[trigger] vs[i], t),
    ensures
        forall|i: int| 0 <= i < backwards(vs, n).len() ==> is_of(#[trigger] backwards(vs, n)[i], t),
    decreases n,
{
    if 0 < n <= vs.len() {
        lemma_backwards(vs, n - 1, t);
        let r = backwards(vs, n);
        assert forall|i: int| 0 <= i < r.len() implies is_of(#[trigger] r[i], t) by {
            if i < r.len() - 1 {
                assert(r[i] == backwards(vs, n - 1)[i]);
            } else {
                assert(is_of(vs[vs.len() - n], t));
            }
        }
    }
}

/// The methods of texts give values of their types.
pub proof fn law_text_methods_give_their_types(s: Seq<char>, method: Seq<char>, args: Seq<ValueView>)
    requires
        string_method(method),
    ensures
        string_result(method) is Some,
        text_method_called(s, method, args) matches PlanView::Value(v) ==> is_of(v, string_result(method)->0),
{
    lemma_type_names();
    reveal_strlit("trim");
    reveal_strlit("upper");
    reveal_strlit("lower");
    reveal_strlit("length");
    reveal_strlit("contains");
    reveal_strlit("split");
    reveal_strlit("replace");
    assert("trim"@.len() == 4 && "upper"@.len() == 5 && "lower"@.len() == 5 && "length"@.len() == 6
        && "contains"@.len() == 8 && "split"@.len() == 5 && "replace"@.len() == 7);
    assert("upper"@[0] == 'u' && "lower"@[0] == 'l' && "split"@[0] == 's');
    if method == "split"@ {
        if let PlanView::Value(v) = text_method_called(s, method, args) {
            reveal_strlit("List<String>");
            reveal_strlit("List<");
            reveal_strlit("String");
            reveal_strlit(">");
            assert("List<String>"@ =~= list_of("String"@));
            lemma_list_type("String"@);
            lemma_of_list(v, "List<String>"@, "String"@);
            let sep = args[0]->Str_0;
            let parts = split_text(s, sep);
            lemma_texts(parts, parts.len() as int);
        }
    }
}

/// The methods of lists give values of their types.
pub proof fn law_list_methods_give_their_types(
    items: Seq<ValueView>,
    method: Seq<char>,
    args: Seq<ValueView>,
    elem: Seq<char>,
)
    requires
        forall|i: int| 0 <= i < items.len() ==> is_of(#[trigger] items[i], elem),
    ensures
        list_method_called(items, method, args) matches PlanView::Value(v) ==> (list_result(
            method,
            elem,
        ) matches Some(t) ==> is_of(v, t)),
{
    lemma_type_names();
    lemma_list_type(elem);
    lemma_optional_type(elem);
    lemma_backwards(items, items.len() as int, elem);
    reveal_strlit("length");
    reveal_strlit("first");
    reveal_strlit("last");
    reveal_strlit("at");
    reveal_strlit("reverse");
    reveal_strlit("filter");
    reveal_strlit("contains");
    assert("length"@.len() == 6 && "first"@.len() == 5 && "last"@.len() == 4 && "at"@.len() == 2
        && "reverse"@.len() == 7 && "filter"@.len() == 6 && "contains"@.len() == 8);
    assert("length"@[0] == 'l' && "filter"@[0] == 'f');
    if let PlanView::Value(v) = list_method_called(items, method, args) {
        lemma_of_optional(v, optional_of(elem), elem);
        lemma_of_list(v, list_of(elem), elem);
    }
}

pub(crate) proof fn lemma_math(name: Seq<char>, args: Seq<ValueView>)
    requires
        math_builtin(name),
    ensures
        builtin_called(name, args) == Some(math_result(name, args)),
        crate::resolve::builtin_type(name) is None,
{
    reveal_strlit("abs");
    reveal_strlit("min");
    reveal_strlit("max");
    reveal_strlit("uid");
    reveal_strlit("now");
    reveal_strlit("hash");
    reveal_strlit("verify");
    reveal_strlit("decimal");
    reveal_strlit("__dec_");
    reveal_strlit("__dec_lt");
    reveal_strlit("__dec_gt");
    reveal_strlit("__dec_le");
    reveal_strlit("__dec_ge");
    reveal_strlit("__dec_add");
    reveal_strlit("__dec_sub");
    reveal_strlit("__dec_mul");
    reveal_strlit("__list_contains");
    reveal_strlit("__str_concat");
    assert("abs"@[0] == 'a' && "min"@[0] == 'm' && "max"@[0] == 'm' && "uid"@[0] == 'u' && "now"@[0] == 'n');
    assert("abs"@.len() == 3 && "min"@.len() == 3 && "max"@.len() == 3);
    assert("hash"@.len() == 4 && "verify"@.len() == 6 && "decimal"@.len() == 7 && "__dec_"@.len() == 6
        && "__dec_lt"@.len() == 8 && "__dec_gt"@.len() == 8 && "__dec_le"@.len() == 8 && "__dec_ge"@.len() == 8
        && "__dec_add"@.len() == 9 && "__dec_sub"@.len() == 9 && "__dec_mul"@.len() == 9
        && "__list_contains"@.len() == 15 && "__str_concat"@.len() == 12);
}

proof fn lemma_method_names(method: Seq<char>)
    ensures
        string_method(method) ==> method != "or"@,
        method == "length"@ || method == "first"@ || method == "last"@ || method == "at"@ || method == "reverse"@
            ==> list_method(method) && method != "or"@ && method != "map"@ && method != "filter"@ && method
            != "reduce"@,
{
    reveal_strlit("or");
    reveal_strlit("map");
    reveal_strlit("reduce");
    reveal_strlit("filter");
    reveal_strlit("length");
    reveal_strlit("first");
    reveal_strlit("last");
    reveal_strlit("at");
    reveal_strlit("reverse");
    reveal_strlit("trim");
    reveal_strlit("upper");
    reveal_strlit("lower");
    reveal_strlit("contains");
    reveal_strlit("split");
    reveal_strlit("replace");
    assert("or"@.len() == 2 && "or"@[0] == 'o' && "at"@.len() == 2 && "at"@[0] == 'a');
    assert("map"@.len() == 3 && "reduce"@.len() == 6 && "filter"@.len() == 6 && "length"@.len() == 6);
    assert("first"@.len() == 5 && "last"@.len() == 4 && "reverse"@.len() == 7);
    assert("trim"@.len() == 4 && "upper"@.len() == 5 && "lower"@.len() == 5 && "contains"@.len() == 8
        && "split"@.len() == 5 && "replace"@.len() == 7);
    assert("length"@[0] == 'l' && "filter"@[0] == 'f' && "reduce"@[0] == 'r');
}

/// The receiver of a method, and what it comes to.
proof fn lemma_received(w: World, e: Expr, env: Env, at: TrackView, fuel: nat, ls: Map<Seq<char>, LocalView>)
    requires
        e is MethodCall,
        !names_capability(*e->MethodCall_receiver, w),
    ensures
        capability_type(*e->MethodCall_receiver, e->method@, w.program) is None,
        eval_at(w, e, env, at, fuel).out matches Ok(_) ==> {
            let r = eval_at(w, *e->MethodCall_receiver, env, at, fuel);
            &&& r.out is Ok
            &&& eval_at(w, e, env, at, fuel) == value_method_at(
                w,
                r.out->Ok_0,
                e->method@,
                e->MethodCall_args@,
                env,
                r.at,
                fuel,
            )
        },
{
    assert(eval_at(w, e, env, at, fuel) == method_at(w, e, env, at, fuel));
}

proof fn lemma_or(
    w: World,
    e: Expr,
    env: Env,
    at: TrackView,
    fuel: nat,
    ls: Map<Seq<char>, LocalView>,
)
    requires
        w.replies.len() == 0,
        agrees(env, ls),
        e is MethodCall,
        is_typed(e, ls, w),
        e->method@ == "or"@,
    ensures
        eval_at(w, e, env, at, fuel).out matches Ok(v) ==> (type_of(e, ls, w.program) matches Some(t) ==> is_of(
            v,
            t,
        )),
    decreases e, 0int,
{
    let receiver = *e->MethodCall_receiver;
    let args = e->MethodCall_args@;
    let rt = type_of(receiver, ls, w.program);
    let r = eval_at(w, receiver, env, at, fuel);
    lemma_method_names(e->method@);
    lemma_received(w, e, env, at, fuel, ls);
    assert(inner_of(rt) is Some);
    assert(type_of(e, ls, w.program) == inner_of(rt));
    law_expression_comes_to_its_type(w, receiver, env, at, fuel, ls);
    law_expression_comes_to_its_type(w, args[0], env, r.at, fuel, ls);
    if eval_at(w, e, env, at, fuel).out is Ok {
        lemma_of_optional(r.out->Ok_0, rt->0, inner_of(rt)->0);
    }
}

proof fn lemma_elem_is_no_text(t: Option<Seq<char>>)
    requires
        elem_of(t) is Some,
    ensures
        t != Some("String"@),
{
    lemma_list_type(t->0);
    reveal_strlit("String");
    assert("String"@[0] == 'S');
}

proof fn lemma_text_method(
    w: World,
    e: Expr,
    env: Env,
    at: TrackView,
    fuel: nat,
    ls: Map<Seq<char>, LocalView>,
)
    requires
        w.replies.len() == 0,
        agrees(env, ls),
        e is MethodCall,
        is_typed(e, ls, w),
        type_of(*e->MethodCall_receiver, ls, w.program) == Some("String"@),
        string_method(e->method@),
    ensures
        eval_at(w, e, env, at, fuel).out matches Ok(v) ==> (type_of(e, ls, w.program) matches Some(t) ==> is_of(
            v,
            t,
        )),
    decreases e, 0int,
{
    let receiver = *e->MethodCall_receiver;
    let method = e->method@;
    let args = e->MethodCall_args@;
    let r = eval_at(w, receiver, env, at, fuel);
    lemma_method_names(method);
    lemma_received(w, e, env, at, fuel, ls);
    law_expression_comes_to_its_type(w, receiver, env, at, fuel, ls);
    lemma_type_names();
    lemma_list_type("String"@);
    reveal_strlit("String");
    assert("String"@[0] == 'S');
    assert(type_of(e, ls, w.program) == string_result(method));
    if eval_at(w, e, env, at, fuel).out is Ok {
        let vs = evals_at(w, args, 0, env, r.at, fuel, Seq::empty());
        law_text_methods_give_their_types(r.out->Ok_0->Str_0, method, vs.out->Ok_0);
    }
}

proof fn lemma_list_method(
    w: World,
    e: Expr,
    env: Env,
    at: TrackView,
    fuel: nat,
    ls: Map<Seq<char>, LocalView>,
)
    requires
        w.replies.len() == 0,
        agrees(env, ls),
        e is MethodCall,
        is_typed(e, ls, w),
        elem_of(type_of(*e->MethodCall_receiver, ls, w.program)) is Some,
        e->method@ == "length"@ || e->method@ == "first"@ || e->method@ == "last"@ || e->method@ == "at"@ || e->method@
            == "reverse"@,
    ensures
        eval_at(w, e, env, at, fuel).out matches Ok(v) ==> (type_of(e, ls, w.program) matches Some(t) ==> is_of(
            v,
            t,
        )),
    decreases e, 0int,
{
    let receiver = *e->MethodCall_receiver;
    let method = e->method@;
    let args = e->MethodCall_args@;
    let rt = type_of(receiver, ls, w.program);
    let elem = elem_of(rt)->0;
    let r = eval_at(w, receiver, env, at, fuel);
    lemma_method_names(method);
    lemma_received(w, e, env, at, fuel, ls);
    law_expression_comes_to_its_type(w, receiver, env, at, fuel, ls);
    assert(type_of(e, ls, w.program) == list_result(method, elem));
    if eval_at(w, e, env, at, fuel).out is Ok {
        let vs = evals_at(w, args, 0, env, r.at, fuel, Seq::empty());
        lemma_of_list(r.out->Ok_0, rt->0, elem);
        law_list_methods_give_their_types(r.out->Ok_0->List_0, method, vs.out->Ok_0, elem);
    }
}

proof fn lemma_operation(
    w: World,
    e: Expr,
    env: Env,
    at: TrackView,
    fuel: nat,
    ls: Map<Seq<char>, LocalView>,
)
    requires
        w.replies.len() == 0,
        agrees(env, ls),
        e is Binary,
        is_typed(e, ls, w),
    ensures
        eval_at(w, e, env, at, fuel).out matches Ok(v) ==> (type_of(e, ls, w.program) matches Some(t) ==> is_of(
            v,
            t,
        )),
    decreases e, 0int,
{
    let p = w.program;
    let op = e->Binary_op;
    let left = *e->Binary_left;
    let right = *e->Binary_right;
    lemma_type_names();
    let l = eval_at(w, left, env, at, fuel);
    law_expression_comes_to_its_type(w, left, env, at, fuel, ls);
    if let Ok(a) = l.out {
        let r = eval_at(w, right, env, l.at, fuel);
        law_expression_comes_to_its_type(w, right, env, l.at, fuel, ls);
        if let Ok(b) = r.out {
            assert(eval_at(w, e, env, at, fuel) == settled(w, operated(op, a, b), r.at));
            if !bool_op(op) {
                lemma_operated(op, a, b, type_of(left, ls, p), type_of(right, ls, p));
            }
        }
    }
}

proof fn lemma_listed(
    w: World,
    e: Expr,
    env: Env,
    at: TrackView,
    fuel: nat,
    ls: Map<Seq<char>, LocalView>,
)
    requires
        w.replies.len() == 0,
        agrees(env, ls),
        e is ListLit || e is Range || e is Index,
        is_typed(e, ls, w),
    ensures
        eval_at(w, e, env, at, fuel).out matches Ok(v) ==> (type_of(e, ls, w.program) matches Some(t) ==> is_of(
            v,
            t,
        )),
    decreases e, 0int,
{
    let p = w.program;
    match e {
        Expr::ListLit(items) => {
            if items@.len() > 0 && type_of(items@[0], ls, p) is Some {
                let t = type_of(items@[0], ls, p)->0;
                lemma_items(w, items@, 0, env, at, fuel, Seq::empty(), ls, t);
                lemma_list_type(t);
                if let Ok(v) = eval_at(w, e, env, at, fuel).out {
                    lemma_of_list(v, list_of(t), t);
                }
            }
        },
        Expr::Range { start, end } => {
            if let Ok(v) = eval_at(w, e, env, at, fuel).out {
                reveal_strlit("List<Int>");
                reveal_strlit("List<");
                reveal_strlit("Int");
                reveal_strlit(">");
                assert("List<Int>"@ =~= list_of("Int"@));
                lemma_list_type("Int"@);
                lemma_of_list(v, "List<Int>"@, "Int"@);
                let a = eval_at(w, *start, env, at, fuel);
                let b = eval_at(w, *end, env, a.at, fuel);
                lemma_counted(a.out->Ok_0->Int_0, b.out->Ok_0->Int_0 - a.out->Ok_0->Int_0);
            }
        },
        Expr::Index { base, index } => {
            law_expression_comes_to_its_type(w, *base, env, at, fuel, ls);
            let bt = type_of(*base, ls, p);
            if elem_of(bt) is Some {
                let elem = elem_of(bt)->0;
                if let Ok(v) = eval_at(w, e, env, at, fuel).out {
                    lemma_of_list(eval_at(w, *base, env, at, fuel).out->Ok_0, bt->0, elem);
                    lemma_optional_type(elem);
                    lemma_of_optional(v, optional_of(elem), elem);
                }
            }
        },
        _ => {},
    }
}

proof fn lemma_math_call(
    w: World,
    e: Expr,
    env: Env,
    at: TrackView,
    fuel: nat,
    ls: Map<Seq<char>, LocalView>,
)
    requires
        w.replies.len() == 0,
        e is Call,
        is_typed(e, ls, w),
    ensures
        eval_at(w, e, env, at, fuel).out matches Ok(v) ==> (type_of(e, ls, w.program) matches Some(t) ==> is_of(
            v,
            t,
        )),
{
    let callee = e->Call_callee@;
    let args = e->Call_args@;
    lemma_type_names();
    let r = evals_at(w, args, 0, env, at, fuel, Seq::empty());
    lemma_math(callee, r.out->Ok_0);
    assert(type_of(e, ls, w.program) == type_of(args[0], ls, w.program));
    if eval_at(w, e, env, at, fuel).out is Ok {
        let vs = r.out->Ok_0;
        assert(call_at(w, callee, vs, r.at, (fuel - 1) as nat) == settled(w, math_result(callee, vs), r.at));
        assert(eval_at(w, e, env, at, fuel) == call_at(w, callee, vs, r.at, (fuel - 1) as nat));
    }
}

/// An expression comes to a value of the type that it is given: with each name standing for a value of its
/// type, and as long as no answer of a host is taken in.
pub proof fn law_expression_comes_to_its_type(
    w: World,
    e: Expr,
    env: Env,
    at: TrackView,
    fuel: nat,
    ls: Map<Seq<char>, LocalView>,
)
    requires
        w.replies.len() == 0,
        agrees(env, ls),
        is_typed(e, ls, w),
    ensures
        eval_at(w, e, env, at, fuel).out matches Ok(v) ==> (type_of(e, ls, w.program) matches Some(t) ==> is_of(
            v,
            t,
        )),
    decreases e, 1int,
{
    let p = w.program;
    lemma_type_names();
    match e {
        Expr::Unary { op, expr } => {
            law_expression_comes_to_its_type(w, *expr, env, at, fuel, ls);
        },
        Expr::Binary { .. } => lemma_operation(w, e, env, at, fuel, ls),
        Expr::Declassify(inner) => law_expression_comes_to_its_type(w, *inner, env, at, fuel, ls),
        Expr::Raw(inner) => law_expression_comes_to_its_type(w, *inner, env, at, fuel, ls),
        Expr::Await(inner) => law_expression_comes_to_its_type(w, *inner, env, at, fuel, ls),
        Expr::Ternary { cond, yes, otherwise } => {
            let r = eval_at(w, *cond, env, at, fuel);
            law_expression_comes_to_its_type(w, *yes, env, r.at, fuel, ls);
            law_expression_comes_to_its_type(w, *otherwise, env, r.at, fuel, ls);
        },
        Expr::ListLit(_) => lemma_listed(w, e, env, at, fuel, ls),
        Expr::Range { .. } => lemma_listed(w, e, env, at, fuel, ls),
        Expr::Index { .. } => lemma_listed(w, e, env, at, fuel, ls),
        Expr::Call { .. } => lemma_math_call(w, e, env, at, fuel, ls),
        Expr::MethodCall { receiver, method, .. } => {
            if method@ == "or"@ {
                lemma_or(w, e, env, at, fuel, ls);
            } else if elem_of(type_of(*receiver, ls, p)) is Some {
                lemma_elem_is_no_text(type_of(*receiver, ls, p));
                lemma_list_method(w, e, env, at, fuel, ls);
            } else {
                lemma_text_method(w, e, env, at, fuel, ls);
            }
        },
        _ => {},
    }
}

/// A value of a type is a value of every type that the first can be assigned to.
proof fn lemma_assigned(v: ValueView, a: Seq<char>, d: Seq<char>)
    requires
        fits(a, d),
        is_of(v, a),
    ensures
        is_of(v, d),
    decreases d.len(),
{
    lemma_type_names();
    if a != d && !(a == "Int"@ && d == "Float"@) {
        let inner = generic_inner_spec("Optional"@, d)->0;
        lemma_of_optional(v, d, inner);
        if a != "None"@ {
            lemma_assigned(v, a, inner);
        }
    }
}

/// In an accepted program what a `return` comes to is a value of the function's declared type.
pub proof fn law_accepted_function_returns_its_type(
    w: World,
    i: int,
    e: Expr,
    names: Map<Seq<char>, LocalView>,
    env: Env,
    at: TrackView,
    fuel: nat,
)
    requires
        w.replies.len() == 0,
        accepted(w.program),
        0 <= i < w.program.functions@.len(),
        in_function(w.program.functions@[i], w.program, Stmt::Return(e), names),
        agrees(env, names),
        is_typed(e, names, w),
        type_of(e, names, w.program) is Some,
    ensures
        w.program.functions@[i].return_type is Some,
        eval_at(w, e, env, at, fuel).out matches Ok(v) ==> is_of(v, w.program.functions@[i].return_type->0@),
{
    law_accepted_return_fits(w.program, i, e, names);
    law_expression_comes_to_its_type(w, e, env, at, fuel, names);
    if let Ok(v) = eval_at(w, e, env, at, fuel).out {
        lemma_assigned(v, type_of(e, names, w.program)->0, w.program.functions@[i].return_type->0@);
    }
}

} // verus!
