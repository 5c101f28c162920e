//! Types of expressions: what each expression evaluates to, where that can be told.
use vstd::prelude::*;
use vstd::string::*;

use crate::ast::{prop_index, BinOp, Expr, PropertyNode, UnOp, XeresProgram};
use crate::strmap::{map_of, StrMap};
use crate::table::{
    bool_op, collection_of, endpoint_of, enumeration_of, function_of, get_collection, get_endpoint,
    get_enumeration, get_function, get_model, is_bool_op, model_of,
};
use crate::text::{cat3, same};
use crate::types::{generic_inner, generic_inner_spec};
use crate::uses::{is_ident, is_ident_text};

verus! {

/// What is known of a name in scope: its type, and whether it holds secret-derived data.
pub struct Local {
    pub ty: Option<String>,
    pub tainted: bool,
}

/// What is known of a name in scope, by its texts.
pub struct LocalView {
    pub ty: Option<Seq<char>>,
    pub tainted: bool,
}

/// The text of an optional text.
pub open spec fn opt_text(o: Option<String>) -> Option<Seq<char>> {
    match o {
        Some(s) => Some(s@),
        None => None,
    }
}

impl View for Local {
    type V = LocalView;

    open spec fn view(&self) -> LocalView {
        LocalView { ty: opt_text(self.ty), tainted: self.tainted }
    }
}

/// The names in scope.
pub type Locals = StrMap<Local>;

/// A name of a type, without secret-derived data.
pub open spec fn typed(ty: Option<Seq<char>>) -> LocalView {
    LocalView { ty, tainted: false }
}

/// A copy of an optional text.
pub fn copy_opt(o: &Option<String>) -> (r: Option<String>)
    ensures
        opt_text(r) == opt_text(*o),
{
    match o {
        Some(s) => Some(s.clone()),
        None => None,
    }
}

/// A copy of the names in scope.
pub fn copy_locals(ls: &Locals) -> (r: Locals)
    ensures
        r@ == ls@,
{
    let mut out: Locals = StrMap::new();
    let n: usize = ls.entries.len();
    let mut i: usize = 0;
    while i < n
        invariant
            i <= n,
            n == ls.entries@.len(),
            out@ == map_of(ls.entries@, i as int),
        decreases n - i,
    {
        let e = &ls.entries[i];
        out.insert(e.0.clone(), Local { ty: copy_opt(&e.1.ty), tainted: e.1.tainted });
        i = i + 1;
    }
    out
}

/// The names in scope, with one more.
pub fn bind_copy(ls: &Locals, name: &str, ty: Option<String>) -> (r: Locals)
    ensures
        r@ == ls@.insert(name@, typed(opt_text(ty))),
{
    let mut out = copy_locals(ls);
    out.insert(name.to_owned(), Local { ty, tainted: false });
    out
}

/// `List<elem>`.
pub open spec fn list_of(elem: Seq<char>) -> Seq<char> {
    "List<"@ + elem + ">"@
}

/// `Optional<elem>`.
pub open spec fn optional_of(elem: Seq<char>) -> Seq<char> {
    "Optional<"@ + elem + ">"@
}

/// The element type of a list type.
pub open spec fn elem_of(t: Option<Seq<char>>) -> Option<Seq<char>> {
    match t {
        Some(x) => generic_inner_spec("List"@, x),
        None => None,
    }
}

/// The inner type of an optional type.
pub open spec fn inner_of(t: Option<Seq<char>>) -> Option<Seq<char>> {
    match t {
        Some(x) => generic_inner_spec("Optional"@, x),
        None => None,
    }
}

/// The element type of a list type.
pub fn list_elem(t: &Option<String>) -> (r: Option<String>)
    ensures
        opt_text(r) == elem_of(opt_text(*t)),
{
    match t {
        Some(x) => match generic_inner("List", x) {
            Some(i) => Some(i.to_owned()),
            None => None,
        },
        None => None,
    }
}

/// The inner type of an optional type.
pub fn optional_inner(t: &Option<String>) -> (r: Option<String>)
    ensures
        opt_text(r) == inner_of(opt_text(*t)),
{
    match t {
        Some(x) => match generic_inner("Optional", x) {
            Some(i) => Some(i.to_owned()),
            None => None,
        },
        None => None,
    }
}

/// Whether a method is a builtin String method.
pub open spec fn string_method(m: Seq<char>) -> bool {
    m == "trim"@ || m == "upper"@ || m == "lower"@ || m == "length"@ || m == "contains"@ || m
        == "split"@ || m == "replace"@
}

/// Whether a method is a builtin String method.
pub fn is_string_method(m: &str) -> (r: bool)
    ensures
        r == string_method(m@),
{
    same(m, "trim") || same(m, "upper") || same(m, "lower") || same(m, "length") || same(
        m,
        "contains",
    ) || same(m, "split") || same(m, "replace")
}

/// The type of a field of a model.
pub open spec fn field_type(ty: Seq<char>, field: Seq<char>, p: XeresProgram) -> Option<Seq<char>> {
    match field_prop(ty, field, p) {
        Some(prop) => Some(prop.data_type@),
        None => None,
    }
}

/// The field that a type and a field name stand for.
pub open spec fn field_prop(ty: Seq<char>, field: Seq<char>, p: XeresProgram) -> Option<
    PropertyNode,
> {
    match model_of(p, ty) {
        Some(m) => match prop_index(m.properties@, field) {
            Some(i) => Some(m.properties@[i]),
            None => None,
        },
        None => None,
    }
}

/// The field that a type and a field name stand for.
pub fn get_field_prop<'a>(ty: &str, field: &str, p: &'a XeresProgram) -> (r: Option<
    &'a PropertyNode,
>)
    ensures
        match r {
            Some(x) => field_prop(ty@, field@, *p) == Some(*x),
            None => field_prop(ty@, field@, *p) is None,
        },
{
    match get_model(p, ty) {
        Some(m) => m.field(field),
        None => None,
    }
}

/// The type of arithmetic on two types, where it has one. String concatenation takes anything,
/// Decimal stays exact, and times are shifted and subtracted in milliseconds.
pub open spec fn arith_type(op: BinOp, lt: Option<Seq<char>>, rt: Option<Seq<char>>) -> Option<
    Seq<char>,
> {
    let whole = Some("Int"@);
    let dec = Some("Decimal"@);
    let float = Some("Float"@);
    let time = Some("DateTime"@);
    if op == BinOp::Add && (lt == Some("String"@) || rt == Some("String"@)) {
        Some("String"@)
    } else if lt == whole && rt == whole {
        whole
    } else if lt == dec && rt == dec && (op == BinOp::Add || op == BinOp::Sub || op == BinOp::Mul) {
        dec
    } else if ((lt == dec && rt == whole) || (lt == whole && rt == dec)) && op == BinOp::Mul {
        dec
    } else if lt == float || rt == float {
        float
    } else if lt == time && rt == time && op == BinOp::Sub {
        whole
    } else if lt == time && rt == whole && (op == BinOp::Add || op == BinOp::Sub) {
        time
    } else if lt == whole && rt == time && op == BinOp::Add {
        time
    } else {
        None
    }
}

/// Whether an optional type is this one.
pub fn is_type(t: &Option<String>, name: &str) -> (r: bool)
    ensures
        r == (opt_text(*t) == Some(name@)),
{
    match t {
        Some(x) => same(x, name),
        None => false,
    }
}

fn arith(op: BinOp, lt: &Option<String>, rt: &Option<String>) -> (r: Option<String>)
    ensures
        opt_text(r) == arith_type(op, opt_text(*lt), opt_text(*rt)),
{
    if op == BinOp::Add && (is_type(lt, "String") || is_type(rt, "String")) {
        Some("String".to_owned())
    } else if is_type(lt, "Int") && is_type(rt, "Int") {
        Some("Int".to_owned())
    } else if is_type(lt, "Decimal") && is_type(rt, "Decimal") && (op == BinOp::Add || op
        == BinOp::Sub || op == BinOp::Mul) {
        Some("Decimal".to_owned())
    } else if ((is_type(lt, "Decimal") && is_type(rt, "Int")) || (is_type(lt, "Int") && is_type(
        rt,
        "Decimal",
    ))) && op == BinOp::Mul {
        Some("Decimal".to_owned())
    } else if is_type(lt, "Float") || is_type(rt, "Float") {
        Some("Float".to_owned())
    } else if is_type(lt, "DateTime") && is_type(rt, "DateTime") && op == BinOp::Sub {
        Some("Int".to_owned())
    } else if is_type(lt, "DateTime") && is_type(rt, "Int") && (op == BinOp::Add || op
        == BinOp::Sub) {
        Some("DateTime".to_owned())
    } else if is_type(lt, "Int") && is_type(rt, "DateTime") && op == BinOp::Add {
        Some("DateTime".to_owned())
    } else {
        None
    }
}

/// The type of a builtin function's result; `None` for any other function.
pub open spec fn builtin_type(callee: Seq<char>) -> Option<Seq<char>> {
    if callee == "uid"@ || callee == "hash"@ || callee == "__str_concat"@ {
        Some("String"@)
    } else if callee == "verify"@ || callee == "__dec_lt"@ || callee == "__dec_gt"@ || callee
        == "__dec_le"@ || callee == "__dec_ge"@ {
        Some("Bool"@)
    } else if callee == "now"@ {
        Some("DateTime"@)
    } else if callee == "decimal"@ || callee == "__dec_add"@ || callee == "__dec_sub"@ || callee
        == "__dec_mul"@ {
        Some("Decimal"@)
    } else {
        None
    }
}

fn builtin_result(callee: &str) -> (r: Option<String>)
    ensures
        opt_text(r) == builtin_type(callee@),
{
    if same(callee, "uid") || same(callee, "hash") || same(callee, "__str_concat") {
        Some("String".to_owned())
    } else if same(callee, "verify") || same(callee, "__dec_lt") || same(callee, "__dec_gt")
        || same(callee, "__dec_le") || same(callee, "__dec_ge") {
        Some("Bool".to_owned())
    } else if same(callee, "now") {
        Some("DateTime".to_owned())
    } else if same(callee, "decimal") || same(callee, "__dec_add") || same(callee, "__dec_sub")
        || same(callee, "__dec_mul") {
        Some("Decimal".to_owned())
    } else {
        None
    }
}

/// Whether a function is one of the math builtins, whose result has its argument's type.
pub open spec fn math_builtin(callee: Seq<char>) -> bool {
    callee == "abs"@ || callee == "min"@ || callee == "max"@
}

/// The type of a method call on `db`, an endpoint or a synced collection, where the receiver is one
/// of these; `None` where it is not. The inner option is the type itself.
pub open spec fn capability_type(receiver: Expr, method: Seq<char>, p: XeresProgram) -> Option<
    Option<Seq<char>>,
> {
    match receiver {
        Expr::Ident(name) => if name@ == "db"@ {
            Some(
                if method == "exec"@ {
                    Some("Int"@)
                } else {
                    None
                },
            )
        } else if endpoint_of(p, name@) is Some {
            Some(
                if method == "get"@ {
                    Some("String"@)
                } else if method == "post"@ {
                    Some("Int"@)
                } else {
                    None
                },
            )
        } else if method == "get"@ && collection_of(p, name@) is Some {
            Some(Some(collection_of(p, name@)->0.collection_type@))
        } else {
            None
        },
        _ => None,
    }
}

fn capability(receiver: &Expr, method: &str, p: &XeresProgram) -> (r: Option<Option<String>>)
    ensures
        match r {
            Some(t) => capability_type(*receiver, method@, *p) == Some(opt_text(t)),
            None => capability_type(*receiver, method@, *p) is None,
        },
{
    match receiver {
        Expr::Ident(name) => {
            if same(name, "db") {
                return if same(method, "exec") {
                    Some(Some("Int".to_owned()))
                } else {
                    Some(None)
                };
            }
            if get_endpoint(p, name).is_some() {
                return if same(method, "get") {
                    Some(Some("String".to_owned()))
                } else if same(method, "post") {
                    Some(Some("Int".to_owned()))
                } else {
                    Some(None)
                };
            }
            if same(method, "get") {
                if let Some(c) = get_collection(p, name) {
                    return Some(Some(c.collection_type.clone()));
                }
            }
            None
        },
        _ => None,
    }
}

/// Whether a method is a builtin List method.
pub open spec fn list_method(m: Seq<char>) -> bool {
    m == "length"@ || m == "first"@ || m == "last"@ || m == "at"@ || m == "reverse"@ || m
        == "filter"@ || m == "contains"@ || m == "map"@ || m == "reduce"@
}

/// Whether a method is a builtin List method.
pub fn is_list_method(m: &str) -> (r: bool)
    ensures
        r == list_method(m@),
{
    same(m, "length") || same(m, "first") || same(m, "last") || same(m, "at") || same(m, "reverse")
        || same(m, "filter") || same(m, "contains") || same(m, "map") || same(m, "reduce")
}

/// The type of a builtin List method's result, but for `map` and `reduce`.
pub open spec fn list_result(m: Seq<char>, elem: Seq<char>) -> Option<Seq<char>> {
    if m == "length"@ {
        Some("Int"@)
    } else if m == "first"@ || m == "last"@ || m == "at"@ {
        Some(optional_of(elem))
    } else if m == "reverse"@ || m == "filter"@ {
        Some(list_of(elem))
    } else if m == "contains"@ {
        Some("Bool"@)
    } else {
        None
    }
}

fn list_result_type(m: &str, elem: &str) -> (r: Option<String>)
    ensures
        opt_text(r) == list_result(m@, elem@),
{
    if same(m, "length") {
        Some("Int".to_owned())
    } else if same(m, "first") || same(m, "last") || same(m, "at") {
        Some(cat3("Optional<", elem, ">"))
    } else if same(m, "reverse") || same(m, "filter") {
        Some(cat3("List<", elem, ">"))
    } else if same(m, "contains") {
        Some("Bool".to_owned())
    } else {
        None
    }
}

/// The type of a builtin String method's result.
pub open spec fn string_result(m: Seq<char>) -> Option<Seq<char>> {
    if !string_method(m) {
        None
    } else if m == "length"@ {
        Some("Int"@)
    } else if m == "contains"@ {
        Some("Bool"@)
    } else if m == "split"@ {
        Some("List<String>"@)
    } else {
        Some("String"@)
    }
}

fn string_result_type(m: &str) -> (r: Option<String>)
    ensures
        opt_text(r) == string_result(m@),
{
    if !is_string_method(m) {
        None
    } else if same(m, "length") {
        Some("Int".to_owned())
    } else if same(m, "contains") {
        Some("Bool".to_owned())
    } else if same(m, "split") {
        Some("List<String>".to_owned())
    } else {
        Some("String".to_owned())
    }
}

/// The type of an expression with these names in scope, where it can be told.
pub open spec fn type_of(e: Expr, ls: Map<Seq<char>, LocalView>, p: XeresProgram) -> Option<
    Seq<char>,
>
    decreases e,
{
    match e {
        Expr::Int(_) => Some("Int"@),
        Expr::Float(_) => Some("Float"@),
        Expr::Str(_) => Some("String"@),
        Expr::Bool(_) => Some("Bool"@),
        Expr::Ident(v) => if ls.dom().contains(v@) {
            ls[v@].ty
        } else {
            None
        },
        Expr::Field { base, field } => if is_ident_text(*base, "session"@) && field@ == "actor"@ {
            Some("Optional<String>"@)
        } else if *base is Ident && enumeration_of(p, base->Ident_0@) is Some {
            Some(base->Ident_0@)
        } else {
            match type_of(*base, ls, p) {
                Some(t) => field_type(t, field@, p),
                None => None,
            }
        },
        Expr::Call { callee, args } => if builtin_type(callee@) is Some {
            builtin_type(callee@)
        } else if math_builtin(callee@) {
            let t = if args@.len() > 0 {
                type_of(args@[0], ls, p)
            } else {
                None
            };
            if t is Some {
                t
            } else {
                Some("Int"@)
            }
        } else {
            match function_of(p, callee@) {
                Some(f) => opt_text(f.return_type),
                None => None,
            }
        },
        Expr::Unary { op, expr } => match op {
            UnOp::Not => Some("Bool"@),
            UnOp::Neg => type_of(*expr, ls, p),
        },
        Expr::Binary { op, left, right } => if bool_op(op) {
            Some("Bool"@)
        } else {
            arith_type(op, type_of(*left, ls, p), type_of(*right, ls, p))
        },
        Expr::Declassify(inner) => type_of(*inner, ls, p),
        Expr::Raw(inner) => type_of(*inner, ls, p),
        Expr::Await(inner) => type_of(*inner, ls, p),
        Expr::MethodCall { receiver, method, args } => match capability_type(
            *receiver,
            method@,
            p,
        ) {
            Some(t) => t,
            None => {
                let rt = type_of(*receiver, ls, p);
                if method@ == "or"@ && inner_of(rt) is Some {
                    inner_of(rt)
                } else if elem_of(rt) is Some && list_method(method@) {
                    let elem = elem_of(rt)->0;
                    if method@ == "map"@ {
                        if args@.len() > 0 && args@[0] is Closure
                            && args@[0]->Closure_params@.len() == 1 {
                            match type_of(
                                *args@[0]->Closure_body,
                                ls.insert(args@[0]->Closure_params@[0]@, typed(Some(elem))),
                                p,
                            ) {
                                Some(u) => Some(list_of(u)),
                                None => None,
                            }
                        } else {
                            None
                        }
                    } else if method@ == "reduce"@ {
                        if args@.len() > 0 {
                            type_of(args@[0], ls, p)
                        } else {
                            None
                        }
                    } else {
                        list_result(method@, elem)
                    }
                } else {
                    string_result(method@)
                }
            },
        },
        Expr::Record { name, .. } => Some(name@),
        Expr::NoneLit => Some("None"@),
        Expr::ListLit(items) => if items@.len() > 0 {
            match type_of(items@[0], ls, p) {
                Some(t) => Some(list_of(t)),
                None => None,
            }
        } else {
            None
        },
        Expr::Ternary { yes, otherwise, .. } => {
            let t = type_of(*yes, ls, p);
            if t is Some {
                t
            } else {
                type_of(*otherwise, ls, p)
            }
        },
        Expr::Range { .. } => Some("List<Int>"@),
        Expr::Closure { .. } => None,
        Expr::Index { base, .. } => match elem_of(type_of(*base, ls, p)) {
            Some(elem) => Some(optional_of(elem)),
            None => None,
        },
    }
}

/// The type of an expression with these names in scope, where it can be told.
pub fn resolve_type(e: &Expr, ls: &Locals, p: &XeresProgram) -> (r: Option<String>)
    ensures
        opt_text(r) == type_of(*e, ls@, *p),
    decreases e,
{
    match e {
        Expr::Int(_) => Some("Int".to_owned()),
        Expr::Float(_) => Some("Float".to_owned()),
        Expr::Str(_) => Some("String".to_owned()),
        Expr::Bool(_) => Some("Bool".to_owned()),
        Expr::Ident(v) => match ls.get(v) {
            Some(l) => copy_opt(&l.ty),
            None => None,
        },
        Expr::Field { base, field } => {
            if is_ident(base, "session") && same(field, "actor") {
                return Some("Optional<String>".to_owned());
            }
            if let Expr::Ident(name) = &**base {
                if get_enumeration(p, name).is_some() {
                    return Some(name.clone());
                }
            }
            match resolve_type(base, ls, p) {
                Some(t) => match get_field_prop(&t, field, p) {
                    Some(prop) => Some(prop.data_type.clone()),
                    None => None,
                },
                None => None,
            }
        },
        Expr::Call { callee, args } => {
            let b = builtin_result(callee);
            if b.is_some() {
                return b;
            }
            if same(callee, "abs") || same(callee, "min") || same(callee, "max") {
                if args.len() > 0 {
                    let t = resolve_type(&args[0], ls, p);
                    if t.is_some() {
                        return t;
                    }
                }
                return Some("Int".to_owned());
            }
            match get_function(p, callee) {
                Some(f) => copy_opt(&f.return_type),
                None => None,
            }
        },
        Expr::Unary { op, expr } => match op {
            UnOp::Not => Some("Bool".to_owned()),
            UnOp::Neg => resolve_type(expr, ls, p),
        },
        Expr::Binary { op, left, right } => if is_bool_op(*op) {
            Some("Bool".to_owned())
        } else {
            let lt = resolve_type(left, ls, p);
            let rt = resolve_type(right, ls, p);
            arith(*op, &lt, &rt)
        },
        Expr::Declassify(inner) => resolve_type(inner, ls, p),
        Expr::Raw(inner) => resolve_type(inner, ls, p),
        Expr::Await(inner) => resolve_type(inner, ls, p),
        Expr::MethodCall { receiver, method, args } => {
            if let Some(t) = capability(receiver, method, p) {
                return t;
            }
            let rt = resolve_type(receiver, ls, p);
            if same(method, "or") {
                let inner = optional_inner(&rt);
                if inner.is_some() {
                    return inner;
                }
            }
            if let Some(elem) = list_elem(&rt) {
                if is_list_method(method) {
                    if same(method, "map") {
                        if args.len() > 0 {
                            if let Expr::Closure { params, body } = &args[0] {
                                if params.len() == 1 {
                                    let inner = bind_copy(ls, &params[0], Some(elem));
                                    return match resolve_type(body, &inner, p) {
                                        Some(u) => Some(cat3("List<", &u, ">")),
                                        None => None,
                                    };
                                }
                            }
                        }
                        return None;
                    }
                    if same(method, "reduce") {
                        return if args.len() > 0 {
                            resolve_type(&args[0], ls, p)
                        } else {
                            None
                        };
                    }
                    return list_result_type(method, &elem);
                }
            }
            string_result_type(method)
        },
        Expr::Record { name, .. } => Some(name.clone()),
        Expr::NoneLit => Some("None".to_owned()),
        Expr::ListLit(items) => if items.len() > 0 {
            match resolve_type(&items[0], ls, p) {
                Some(t) => Some(cat3("List<", &t, ">")),
                None => None,
            }
        } else {
            None
        },
        Expr::Ternary { yes, otherwise, .. } => {
            let t = resolve_type(yes, ls, p);
            if t.is_some() {
                t
            } else {
                resolve_type(otherwise, ls, p)
            }
        },
        Expr::Range { .. } => Some("List<Int>".to_owned()),
        Expr::Closure { .. } => None,
        Expr::Index { base, .. } => {
            let bt = resolve_type(base, ls, p);
            match list_elem(&bt) {
                Some(elem) => Some(cat3("Optional<", &elem, ">")),
                None => None,
            }
        },
    }
}

/// The element type of what a `for` runs over: a synced collection, or a list.
pub open spec fn element_type(iter: Expr, ls: Map<Seq<char>, LocalView>, p: XeresProgram) -> Option<
    Seq<char>,
> {
    if iter is Ident && collection_of(p, iter->Ident_0@) is Some {
        Some(collection_of(p, iter->Ident_0@)->0.collection_type@)
    } else {
        elem_of(type_of(iter, ls, p))
    }
}

/// The element type of what a `for` runs over.
pub fn element_type_of(iter: &Expr, ls: &Locals, p: &XeresProgram) -> (r: Option<String>)
    ensures
        opt_text(r) == element_type(*iter, ls@, *p),
{
    if let Expr::Ident(name) = iter {
        if let Some(c) = get_collection(p, name) {
            return Some(c.collection_type.clone());
        }
    }
    list_elem(&resolve_type(iter, ls, p))
}

/// The type that a closure's parameter `k` has as an argument of a List method; unknown elsewhere.
pub open spec fn closure_param_type(
    method: Seq<char>,
    elem: Option<Seq<char>>,
    init: Option<Seq<char>>,
    count: nat,
    k: int,
) -> Option<Seq<char>> {
    if elem is None {
        None
    } else if (method == "map"@ || method == "filter"@) && count == 1 {
        elem
    } else if method == "reduce"@ && count == 2 {
        if k == 0 {
            init
        } else {
            elem
        }
    } else {
        None
    }
}

/// The names in scope in a closure's body, with the first `n` parameters bound.
pub open spec fn closure_scope(
    ls: Map<Seq<char>, LocalView>,
    params: Seq<String>,
    n: int,
    method: Seq<char>,
    elem: Option<Seq<char>>,
    init: Option<Seq<char>>,
) -> Map<Seq<char>, LocalView>
    decreases n,
{
    if n <= 0 || n > params.len() {
        ls
    } else {
        closure_scope(ls, params, n - 1, method, elem, init).insert(
            params[n - 1]@,
            typed(closure_param_type(method, elem, init, params.len(), n - 1)),
        )
    }
}

/// The names in scope in a closure's body.
pub fn closure_locals(
    ls: &Locals,
    params: &Vec<String>,
    method: &str,
    elem: &Option<String>,
    init: &Option<String>,
) -> (r: Locals)
    ensures
        r@ == closure_scope(
            ls@,
            params@,
            params@.len() as int,
            method@,
            opt_text(*elem),
            opt_text(*init),
        ),
{
    let mut out = copy_locals(ls);
    let mut k: usize = 0;
    while k < params.len()
        invariant
            k <= params.len(),
            out@ == closure_scope(
                ls@,
                params@,
                k as int,
                method@,
                opt_text(*elem),
                opt_text(*init),
            ),
        decreases params.len() - k,
    {
        let ty = if elem.is_none() {
            None
        } else if (same(method, "map") || same(method, "filter")) && params.len() == 1 {
            copy_opt(elem)
        } else if same(method, "reduce") && params.len() == 2 {
            if k == 0 {
                copy_opt(init)
            } else {
                copy_opt(elem)
            }
        } else {
            None
        };
        out.insert(params[k].clone(), Local { ty, tainted: false });
        k = k + 1;
    }
    out
}

} // verus!
