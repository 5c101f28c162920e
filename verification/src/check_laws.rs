//! What an accepted program can be relied on for: what its rules are there to keep out does not stand in it,
//! at whatever depth.
use vstd::prelude::*;
use vstd::string::*;

use crate::ast::{BinOp, EnvModifier, Expr, FunctionNode, MatchArm, MatchPat, Stmt, XeresProgram};
use crate::boundary::{
    accepted, law_accepted_functions_are_clean, lemma_arms_part, lemma_args_part, lemma_exprs_part,
    lemma_flow_part, lemma_values_part,
};
use crate::flow::{flow_diags, function_site, let_scope, stmt_diags, SiteView};
use crate::lower::lowered_callee;
use crate::resolve::{element_type, field_prop, type_of, typed, LocalView};
use crate::rules::{
    arm_covers, capability, expr_diags, missing_variants, named_among, record_fields, record_missing,
    unknown_arms,
};
use crate::table::{enumeration_of, fits, function_of, model_of};
use crate::scope::{await_all, await_diags, await_fields};
use crate::syntax::{is_part, leads, nests, part_of_expr, Node};
use crate::taint::param_scope;
use crate::type_laws::{inhabits, law_assigned_value_is_of_the_declared_type};
use crate::value::ValueView;

verus! {

/// Whether a statement stands in a body with these names in scope, at any depth.
pub open spec fn stands_in(
    ss: Seq<Stmt>,
    ls: Map<Seq<char>, LocalView>,
    p: XeresProgram,
    x: Stmt,
    names: Map<Seq<char>, LocalView>,
) -> bool
    decreases ss,
{
    exists|i: int|
        0 <= i < ss.len() && stands_at(#[trigger] ss[i], let_scope(ss, i, ls, p), p, x, names)
}

/// Whether a statement is another, or stands in it, with these names in scope.
pub open spec fn stands_at(
    s: Stmt,
    ls: Map<Seq<char>, LocalView>,
    p: XeresProgram,
    x: Stmt,
    names: Map<Seq<char>, LocalView>,
) -> bool
    decreases s,
{
    (s == x && names == ls) || match s {
        Stmt::Try { body, handler } => stands_in(body@, ls, p, x, names) || stands_in(
            handler@,
            ls,
            p,
            x,
            names,
        ),
        Stmt::If { then_body, else_body, .. } => stands_in(then_body@, ls, p, x, names) || stands_in(
            else_body@,
            ls,
            p,
            x,
            names,
        ),
        Stmt::For { var, iter, body } => stands_in(
            body@,
            ls.insert(var@, typed(element_type(iter, ls, p))),
            p,
            x,
            names,
        ),
        Stmt::While { body, .. } => stands_in(body@, ls, p, x, names),
        Stmt::Match { arms, .. } => exists|i: int|
            0 <= i < arms@.len() && stands_in((#[trigger] arms@[i]).body@, ls, p, x, names),
        Stmt::Transaction(body) => stands_in(body@, ls, p, x, names),
        _ => false,
    }
}

proof fn lemma_clean_list(
    ss: Seq<Stmt>,
    ls: Map<Seq<char>, LocalView>,
    c: SiteView,
    p: XeresProgram,
    x: Stmt,
    names: Map<Seq<char>, LocalView>,
)
    requires
        flow_diags(ss, ss.len() as int, ls, c, p).len() == 0,
        stands_in(ss, ls, p, x, names),
    ensures
        stmt_diags(x, names, c, p).len() == 0,
    decreases ss,
{
    let i = choose|i: int|
        0 <= i < ss.len() && stands_at(#[trigger] ss[i], let_scope(ss, i, ls, p), p, x, names);
    lemma_flow_part(ss, ss.len() as int, i, ls, c, p);
    lemma_clean_stmt(ss[i], let_scope(ss, i, ls, p), c, p, x, names);
}

proof fn lemma_clean_stmt(
    s: Stmt,
    ls: Map<Seq<char>, LocalView>,
    c: SiteView,
    p: XeresProgram,
    x: Stmt,
    names: Map<Seq<char>, LocalView>,
)
    requires
        stmt_diags(s, ls, c, p).len() == 0,
        stands_at(s, ls, p, x, names),
    ensures
        stmt_diags(x, names, c, p).len() == 0,
    decreases s,
{
    if !(s == x && names == ls) {
        match s {
            Stmt::Try { body, handler } => {
                if stands_in(body@, ls, p, x, names) {
                    lemma_clean_list(body@, ls, c, p, x, names);
                } else {
                    lemma_clean_list(handler@, ls, c, p, x, names);
                }
            },
            Stmt::If { then_body, else_body, .. } => {
                if stands_in(then_body@, ls, p, x, names) {
                    lemma_clean_list(then_body@, ls, c, p, x, names);
                } else {
                    lemma_clean_list(else_body@, ls, c, p, x, names);
                }
            },
            Stmt::For { var, iter, body } => {
                let inner = ls.insert(var@, typed(element_type(iter, ls, p)));
                lemma_clean_list(body@, inner, c, p, x, names);
            },
            Stmt::While { body, .. } => lemma_clean_list(body@, ls, c, p, x, names),
            Stmt::Match { arms, .. } => {
                let i = choose|i: int|
                    0 <= i < arms@.len() && stands_in((#[trigger] arms@[i]).body@, ls, p, x, names);
                lemma_arms_part(arms@, arms@.len() as int, i, ls, c, p);
                lemma_clean_list(arms@[i].body@, ls, c, p, x, names);
            },
            Stmt::Transaction(body) => lemma_clean_list(body@, ls, c, p, x, names),
            _ => {},
        }
    }
}

/// Whether a statement stands in a function with these names in scope.
pub open spec fn in_function(
    f: FunctionNode,
    p: XeresProgram,
    x: Stmt,
    names: Map<Seq<char>, LocalView>,
) -> bool {
    stands_in(f.body@, param_scope(f.params@, f.params@.len() as int), p, x, names)
}

proof fn lemma_accepted_statement(
    p: XeresProgram,
    i: int,
    x: Stmt,
    names: Map<Seq<char>, LocalView>,
)
    requires
        accepted(p),
        0 <= i < p.functions@.len(),
        in_function(p.functions@[i], p, x, names),
    ensures
        stmt_diags(x, names, function_site(p.functions@[i]), p).len() == 0,
{
    let f = p.functions@[i];
    law_accepted_functions_are_clean(p, i);
    lemma_clean_list(
        f.body@,
        param_scope(f.params@, f.params@.len() as int),
        function_site(f),
        p,
        x,
        names,
    );
}

/// In an accepted program what a function returns can be assigned to its declared type; a function that
/// declares none returns nothing with a type.
pub proof fn law_accepted_return_fits(
    p: XeresProgram,
    i: int,
    e: Expr,
    names: Map<Seq<char>, LocalView>,
)
    requires
        accepted(p),
        0 <= i < p.functions@.len(),
        in_function(p.functions@[i], p, Stmt::Return(e), names),
        type_of(e, names, p) is Some,
    ensures
        p.functions@[i].return_type is Some,
        fits(type_of(e, names, p)->0, p.functions@[i].return_type->0@),
{
    lemma_accepted_statement(p, i, Stmt::Return(e), names);
    assert(crate::flow::return_diags(e, names, function_site(p.functions@[i]), p).len() == 0);
}

/// In an accepted program a function returns nothing but values of its declared type: wherever a `return`
/// stands, a value of the returned expression's type is one of the declared type.
pub proof fn law_accepted_returns_are_of_the_declared_type(
    p: XeresProgram,
    i: int,
    e: Expr,
    names: Map<Seq<char>, LocalView>,
    v: ValueView,
)
    requires
        accepted(p),
        0 <= i < p.functions@.len(),
        in_function(p.functions@[i], p, Stmt::Return(e), names),
        type_of(e, names, p) is Some,
        inhabits(v, type_of(e, names, p)->0),
    ensures
        p.functions@[i].return_type is Some,
        inhabits(v, p.functions@[i].return_type->0@),
        p.functions@[i].return_type->0@ == "Int"@ ==> v is Int,
        p.functions@[i].return_type->0@ == "Bool"@ ==> v is Bool,
        p.functions@[i].return_type->0@ == "String"@ ==> v is Str,
{
    law_accepted_return_fits(p, i, e, names);
    let t = type_of(e, names, p)->0;
    let d = p.functions@[i].return_type;
    law_assigned_value_is_of_the_declared_type(v, t, d->0@);
    reveal_strlit("Int");
    reveal_strlit("Bool");
    reveal_strlit("String");
    reveal_strlit("Float");
    reveal_strlit("Decimal");
    reveal_strlit("DateTime");
    assert("Int"@.len() == 3 && "Bool"@.len() == 4 && "String"@.len() == 6 && "Float"@.len() == 5
        && "Decimal"@.len() == 7 && "DateTime"@.len() == 8);
}

/// In an accepted program the condition of an `if` or a `while`, where its type is known, is a truth.
pub proof fn law_accepted_conditions_are_truths(
    p: XeresProgram,
    i: int,
    s: Stmt,
    names: Map<Seq<char>, LocalView>,
)
    requires
        accepted(p),
        0 <= i < p.functions@.len(),
        in_function(p.functions@[i], p, s, names),
    ensures
        s matches Stmt::If { cond, .. } ==> (type_of(cond, names, p) matches Some(t) ==> t == "Bool"@),
        s matches Stmt::While { cond, .. } ==> (type_of(cond, names, p) matches Some(t) ==> t == "Bool"@),
{
    lemma_accepted_statement(p, i, s, names);
}

proof fn lemma_no_unknown_arm(
    arms: Seq<MatchArm>,
    n: int,
    en: crate::ast::EnumNode,
    name: Seq<char>,
    line: nat,
    k: int,
)
    requires
        0 <= k < n <= arms.len(),
        unknown_arms(arms, n, en, name, line).len() == 0,
    ensures
        arms[k].pattern matches MatchPat::Variant(v) ==> exists|j: int|
            0 <= j < en.variants@.len() && (#[trigger] en.variants@[j])@ == v@,
    decreases n,
{
    if k < n - 1 {
        lemma_no_unknown_arm(arms, n - 1, en, name, line, k);
    }
}

proof fn lemma_no_missing(vs: Seq<String>, n: int, arms: Seq<MatchArm>, k: int)
    requires
        0 <= k < n <= vs.len(),
        missing_variants(vs, n, arms).len() == 0,
    ensures
        arm_covers(arms, vs[k]@),
    decreases n,
{
    if k < n - 1 {
        lemma_no_missing(vs, n - 1, arms, k);
    }
}

/// In an accepted program a `match` on a value of a known type is on an enum, each of its arms names one of
/// the enum's variants, and every variant runs some arm.
pub proof fn law_accepted_matches_are_exhaustive(
    p: XeresProgram,
    i: int,
    scrutinee: Expr,
    arms: Vec<MatchArm>,
    names: Map<Seq<char>, LocalView>,
    k: int,
    a: int,
)
    requires
        accepted(p),
        0 <= i < p.functions@.len(),
        in_function(p.functions@[i], p, Stmt::Match { scrutinee, arms }, names),
        type_of(scrutinee, names, p) is Some,
    ensures
        enumeration_of(p, type_of(scrutinee, names, p)->0) is Some,
        ({
            let en = enumeration_of(p, type_of(scrutinee, names, p)->0)->0;
            &&& 0 <= k < en.variants@.len() ==> exists|j: int|
                0 <= j < arms@.len() && ((#[trigger] arms@[j]).pattern is Wildcard || (
                arms@[j].pattern matches MatchPat::Variant(v) && v@ == en.variants@[k]@))
            &&& 0 <= a < arms@.len() ==> (arms@[a].pattern matches MatchPat::Variant(v) ==> exists|j: int|
                0 <= j < en.variants@.len() && (#[trigger] en.variants@[j])@ == v@)
        }),
{
    let s = Stmt::Match { scrutinee, arms };
    lemma_accepted_statement(p, i, s, names);
    let line = function_site(p.functions@[i]).line;
    assert(crate::rules::match_diags(scrutinee, arms@, names, p, line).len() == 0);
    let t = type_of(scrutinee, names, p)->0;
    let en = enumeration_of(p, t)->0;
    if 0 <= a < arms@.len() {
        lemma_no_unknown_arm(arms@, arms@.len() as int, en, t, line, a);
    }
    if 0 <= k < en.variants@.len() {
        if crate::rules::catches_all(arms@) {
            let j = choose|j: int| 0 <= j < arms@.len() && (#[trigger] arms@[j]).pattern is Wildcard;
            assert(arms@[j].pattern is Wildcard);
        } else {
            lemma_no_missing(en.variants@, en.variants@.len() as int, arms@, k);
            let j = choose|j: int|
                0 <= j < arms@.len() && (#[trigger] arms@[j]).pattern is Variant
                    && arms@[j].pattern->Variant_0@ == en.variants@[k]@;
            assert(arms@[j].pattern is Variant);
        }
    }
}

/// Whether an expression is another or stands in it, outside closures, with the same names in scope. What
/// is called on a capability, a screen to go to and the name of an enum are no expressions of their own.
pub open spec fn holds(e: Expr, p: XeresProgram, x: Expr) -> bool
    decreases e,
{
    e == x || match e {
        Expr::Field { base, .. } => !is_name(*base, "session"@) && !(*base is Ident && enumeration_of(
            p,
            base->Ident_0@,
        ) is Some) && holds(*base, p, x),
        Expr::Unary { expr, .. } => holds(*expr, p, x),
        Expr::Binary { left, right, .. } => holds(*left, p, x) || holds(*right, p, x),
        Expr::Call { callee, args } => callee@ != "navigate"@ && callee@ != "decimal"@ && exists|i: int|
            0 <= i < args@.len() && holds(#[trigger] args@[i], p, x),
        Expr::MethodCall { receiver, args, .. } => (!capability(*receiver, p) && holds(*receiver, p, x))
            || exists|i: int|
            0 <= i < args@.len() && !(args@[i] is Closure) && holds(#[trigger] args@[i], p, x),
        Expr::Declassify(inner) => holds(*inner, p, x),
        Expr::Raw(inner) => holds(*inner, p, x),
        Expr::Await(inner) => holds(*inner, p, x),
        Expr::Record { fields, .. } => exists|i: int|
            0 <= i < fields@.len() && holds((#[trigger] fields@[i]).1, p, x),
        Expr::ListLit(items) => exists|i: int| 0 <= i < items@.len() && holds(#[trigger] items@[i], p, x),
        Expr::Ternary { cond, yes, otherwise } => holds(*cond, p, x) || holds(*yes, p, x) || holds(
            *otherwise,
            p,
            x,
        ),
        Expr::Range { start, end } => holds(*start, p, x) || holds(*end, p, x),
        Expr::Index { base, index } => holds(*base, p, x) || holds(*index, p, x),
        _ => false,
    }
}

/// Whether an expression is a name.
pub open spec fn is_name(e: Expr, name: Seq<char>) -> bool {
    e matches Expr::Ident(n) && n@ == name
}

proof fn lemma_clean_expr(
    e: Expr,
    ls: Map<Seq<char>, LocalView>,
    env: EnvModifier,
    name: Seq<char>,
    line: nat,
    p: XeresProgram,
    x: Expr,
)
    requires
        expr_diags(e, ls, env, name, line, p).len() == 0,
        holds(e, p, x),
    ensures
        expr_diags(x, ls, env, name, line, p).len() == 0,
    decreases e,
{
    if e != x {
        match e {
            Expr::Field { base, .. } => lemma_clean_expr(*base, ls, env, name, line, p, x),
            Expr::Unary { expr, .. } => lemma_clean_expr(*expr, ls, env, name, line, p, x),
            Expr::Binary { left, right, .. } => {
                if holds(*left, p, x) {
                    lemma_clean_expr(*left, ls, env, name, line, p, x);
                } else {
                    lemma_clean_expr(*right, ls, env, name, line, p, x);
                }
            },
            Expr::Call { callee, args } => {
                assert(expr_diags(e, ls, env, name, line, p) == crate::rules::call_diags(
                    e,
                    ls,
                    env,
                    name,
                    line,
                    p,
                ));
                let i = choose|i: int| 0 <= i < args@.len() && holds(#[trigger] args@[i], p, x);
                lemma_exprs_part(args@, args@.len() as int, i, ls, env, name, line, p);
                lemma_clean_expr(args@[i], ls, env, name, line, p, x);
            },
            Expr::MethodCall { receiver, method, args } => {
                if !capability(*receiver, p) && holds(*receiver, p, x) {
                    lemma_clean_expr(*receiver, ls, env, name, line, p, x);
                } else {
                    let i = choose|i: int|
                        0 <= i < args@.len() && !(args@[i] is Closure) && holds(#[trigger] args@[i], p, x);
                    let elem = crate::resolve::elem_of(type_of(*receiver, ls, p));
                    let init = if args@.len() > 0 {
                        type_of(args@[0], ls, p)
                    } else {
                        None
                    };
                    lemma_args_part(
                        args@,
                        args@.len() as int,
                        i,
                        method@,
                        elem,
                        init,
                        ls,
                        env,
                        name,
                        line,
                        p,
                    );
                    lemma_clean_expr(args@[i], ls, env, name, line, p, x);
                }
            },
            Expr::Declassify(inner) => lemma_clean_expr(*inner, ls, env, name, line, p, x),
            Expr::Raw(inner) => lemma_clean_expr(*inner, ls, env, name, line, p, x),
            Expr::Await(inner) => lemma_clean_expr(*inner, ls, env, name, line, p, x),
            Expr::Record { fields, .. } => {
                let i = choose|i: int|
                    0 <= i < fields@.len() && holds((#[trigger] fields@[i]).1, p, x);
                lemma_values_part(fields@, fields@.len() as int, i, ls, env, name, line, p);
                assert(decreases_to!(fields@ => fields@[i]));
                lemma_clean_expr(fields@[i].1, ls, env, name, line, p, x);
            },
            Expr::ListLit(items) => {
                let i = choose|i: int| 0 <= i < items@.len() && holds(#[trigger] items@[i], p, x);
                lemma_exprs_part(items@, items@.len() as int, i, ls, env, name, line, p);
                lemma_clean_expr(items@[i], ls, env, name, line, p, x);
            },
            Expr::Ternary { cond, yes, otherwise } => {
                if holds(*cond, p, x) {
                    lemma_clean_expr(*cond, ls, env, name, line, p, x);
                } else if holds(*yes, p, x) {
                    lemma_clean_expr(*yes, ls, env, name, line, p, x);
                } else {
                    lemma_clean_expr(*otherwise, ls, env, name, line, p, x);
                }
            },
            Expr::Range { start, end } => {
                if holds(*start, p, x) {
                    lemma_clean_expr(*start, ls, env, name, line, p, x);
                } else {
                    lemma_clean_expr(*end, ls, env, name, line, p, x);
                }
            },
            Expr::Index { base, index } => {
                if holds(*base, p, x) {
                    lemma_clean_expr(*base, ls, env, name, line, p, x);
                } else {
                    lemma_clean_expr(*index, ls, env, name, line, p, x);
                }
            },
            _ => {},
        }
    }
}

/// The expression that a statement runs itself.
pub open spec fn own_expr(s: Stmt) -> Option<Expr> {
    match s {
        Stmt::Let { value, .. } => Some(value),
        Stmt::Assign { value, .. } => Some(value),
        Stmt::Return(e) => Some(e),
        Stmt::Expr(e) => Some(e),
        Stmt::If { cond, .. } => Some(cond),
        Stmt::For { iter, .. } => Some(iter),
        Stmt::While { cond, .. } => Some(cond),
        Stmt::Match { scrutinee, .. } => Some(scrutinee),
        _ => None,
    }
}

/// Whether an expression stands in a function, outside closures, with these names in scope.
pub open spec fn runs_in(
    f: FunctionNode,
    p: XeresProgram,
    x: Expr,
    names: Map<Seq<char>, LocalView>,
) -> bool {
    exists|s: Stmt| #[trigger]
        in_function(f, p, s, names) && own_expr(s) is Some && holds(own_expr(s)->0, p, x)
}

proof fn lemma_accepted_expr(p: XeresProgram, i: int, x: Expr, names: Map<Seq<char>, LocalView>)
    requires
        accepted(p),
        0 <= i < p.functions@.len(),
        runs_in(p.functions@[i], p, x, names),
    ensures
        ({
            let c = function_site(p.functions@[i]);
            expr_diags(x, names, c.env, c.name, c.line, p).len() == 0
        }),
{
    let f = p.functions@[i];
    let c = function_site(f);
    let s = choose|s: Stmt| #[trigger]
        in_function(f, p, s, names) && own_expr(s) is Some && holds(own_expr(s)->0, p, x);
    lemma_accepted_statement(p, i, s, names);
    assert(crate::flow::body_expr_diags(own_expr(s)->0, names, c, p).len() == 0);
    lemma_clean_expr(own_expr(s)->0, names, c.env, c.name, c.line, p, x);
}

/// In an accepted program money is exact: an operator with a decimal on one side, and a known type on both,
/// compares for equality or is lowered to an exact operation.
pub proof fn law_accepted_money_is_exact(
    p: XeresProgram,
    i: int,
    op: BinOp,
    l: Expr,
    r: Expr,
    names: Map<Seq<char>, LocalView>,
)
    requires
        accepted(p),
        0 <= i < p.functions@.len(),
        runs_in(
            p.functions@[i],
            p,
            Expr::Binary { op, left: Box::new(l), right: Box::new(r) },
            names,
        ),
        type_of(l, names, p) is Some,
        type_of(r, names, p) is Some,
        type_of(l, names, p) == Some("Decimal"@) || type_of(r, names, p) == Some("Decimal"@),
        op != BinOp::Eq && op != BinOp::NotEq && op != BinOp::And && op != BinOp::Or,
    ensures
        op != BinOp::Div,
        lowered_callee(op, type_of(l, names, p), type_of(r, names, p)) is Some,
{
    let x = Expr::Binary { op, left: Box::new(l), right: Box::new(r) };
    lemma_accepted_expr(p, i, x, names);
    let c = function_site(p.functions@[i]);
    assert(crate::rules::decimal_diags(
        op,
        type_of(l, names, p),
        type_of(r, names, p),
        c.name,
        c.line,
    ).len() == 0);
    assert(!crate::rules::mixes_decimal(op, type_of(l, names, p)->0, type_of(r, names, p)->0));
}

/// In an accepted program a choice is made by a truth, between two values of which one can stand for the
/// other, and a variant that is named is one of its enum.
pub proof fn law_accepted_choices_and_variants(
    p: XeresProgram,
    i: int,
    x: Expr,
    names: Map<Seq<char>, LocalView>,
)
    requires
        accepted(p),
        0 <= i < p.functions@.len(),
        runs_in(p.functions@[i], p, x, names),
    ensures
        x matches Expr::Ternary { cond, yes, otherwise } ==> {
            &&& type_of(*cond, names, p) matches Some(t) ==> t == "Bool"@
            &&& type_of(*yes, names, p) is Some && type_of(*otherwise, names, p) is Some ==> {
                ||| fits(type_of(*yes, names, p)->0, type_of(*otherwise, names, p)->0)
                ||| fits(type_of(*otherwise, names, p)->0, type_of(*yes, names, p)->0)
            }
        },
        x matches Expr::Field { base, field } ==> (*base is Ident && !is_name(*base, "session"@) && (
        enumeration_of(p, base->Ident_0@) matches Some(en)) ==> exists|j: int|
            0 <= j < enumeration_of(p, base->Ident_0@)->0.variants@.len() && (
            #[trigger] enumeration_of(p, base->Ident_0@)->0.variants@[j])@ == field@),
        x matches Expr::Declassify(_) ==> p.functions@[i].env == EnvModifier::Server,
        x matches Expr::Call { callee, .. } ==> (callee@ == "hash"@ || callee@ == "verify"@
            ==> p.functions@[i].env == EnvModifier::Server),
{
    lemma_accepted_expr(p, i, x, names);
    reveal_strlit("hash");
    reveal_strlit("verify");
    reveal_strlit("navigate");
    reveal_strlit("decimal");
    assert("hash"@.len() == 4 && "verify"@.len() == 6 && "navigate"@.len() == 8 && "decimal"@.len() == 7);
    if x is Call {
        let c = function_site(p.functions@[i]);
        assert(expr_diags(x, names, c.env, c.name, c.line, p) == crate::rules::call_diags(
            x,
            names,
            c.env,
            c.name,
            c.line,
            p,
        ));
    }
}

proof fn lemma_record_field(
    fields: Seq<(String, Expr)>,
    n: int,
    name: Seq<char>,
    ls: Map<Seq<char>, LocalView>,
    line: nat,
    p: XeresProgram,
    k: int,
)
    requires
        0 <= k < n <= fields.len(),
        record_fields(fields, n, name, ls, line, p).len() == 0,
    ensures
        field_prop(name, fields[k].0@, p) is Some,
        !named_among(fields, k, fields[k].0@),
        type_of(fields[k].1, ls, p) matches Some(t) ==> fits(
            t,
            field_prop(name, fields[k].0@, p)->0.data_type@,
        ),
    decreases n,
{
    if k < n - 1 {
        lemma_record_field(fields, n - 1, name, ls, line, p, k);
    }
}

proof fn lemma_record_whole(
    props: Seq<crate::ast::PropertyNode>,
    n: int,
    fields: Seq<(String, Expr)>,
    name: Seq<char>,
    line: nat,
    k: int,
)
    requires
        0 <= k < n <= props.len(),
        record_missing(props, n, fields, name, line).len() == 0,
    ensures
        named_among(fields, fields.len() as int, props[k].name@) || crate::rules::omittable(
            props[k].data_type@,
        ),
    decreases n,
{
    if k < n - 1 {
        lemma_record_whole(props, n - 1, fields, name, line, k);
    }
}

/// In an accepted program a record is of a declared model, gives each field at most once and with a value of
/// its type, names no other field, and leaves out none that cannot be left out.
pub proof fn law_accepted_records_are_whole(
    p: XeresProgram,
    i: int,
    name: String,
    fields: Vec<(String, Expr)>,
    names: Map<Seq<char>, LocalView>,
    k: int,
    j: int,
    m: int,
)
    requires
        accepted(p),
        0 <= i < p.functions@.len(),
        runs_in(p.functions@[i], p, Expr::Record { name, fields }, names),
    ensures
        model_of(p, name@) is Some,
        0 <= k < fields@.len() ==> {
            &&& field_prop(name@, fields@[k].0@, p) is Some
            &&& type_of(fields@[k].1, names, p) matches Some(t) ==> fits(
                t,
                field_prop(name@, fields@[k].0@, p)->0.data_type@,
            )
            &&& 0 <= j < k ==> fields@[j].0@ != fields@[k].0@
        },
        0 <= m < model_of(p, name@)->0.properties@.len() && !crate::rules::omittable(
            model_of(p, name@)->0.properties@[m].data_type@,
        ) ==> exists|q: int|
            0 <= q < fields@.len() && (#[trigger] fields@[q]).0@ == model_of(
                p,
                name@,
            )->0.properties@[m].name@,
{
    let x = Expr::Record { name, fields };
    lemma_accepted_expr(p, i, x, names);
    let c = function_site(p.functions@[i]);
    assert(crate::rules::record_diags(name@, fields@, names, c.line, p).len() == 0);
    if 0 <= k < fields@.len() {
        lemma_record_field(fields@, fields@.len() as int, name@, names, c.line, p, k);
        if 0 <= j < k && fields@[j].0@ == fields@[k].0@ {
            assert(named_among(fields@, k, fields@[k].0@));
        }
    }
    let props = model_of(p, name@)->0.properties@;
    if 0 <= m < props.len() {
        lemma_record_whole(props, props.len() as int, fields@, name@, c.line, m);
    }
}

proof fn lemma_await_among(
    es: Seq<Expr>,
    n: int,
    k: int,
    browser: bool,
    name: Seq<char>,
    line: nat,
    p: XeresProgram,
)
    requires
        0 <= k < n <= es.len(),
        await_all(es, n, browser, name, line, p).len() == 0,
    ensures
        await_diags(es[k], false, browser, name, line, p).len() == 0,
    decreases n,
{
    if k < n - 1 {
        lemma_await_among(es, n - 1, k, browser, name, line, p);
    }
}

proof fn lemma_await_field(
    fs: Seq<(String, Expr)>,
    n: int,
    k: int,
    browser: bool,
    name: Seq<char>,
    line: nat,
    p: XeresProgram,
)
    requires
        0 <= k < n <= fs.len(),
        await_fields(fs, n, browser, name, line, p).len() == 0,
    ensures
        await_diags(fs[k].1, false, browser, name, line, p).len() == 0,
    decreases n,
{
    if k < n - 1 {
        lemma_await_field(fs, n - 1, k, browser, name, line, p);
    }
}

proof fn lemma_await_part(
    e: Expr,
    awaited: bool,
    x: Node,
    browser: bool,
    name: Seq<char>,
    line: nat,
    p: XeresProgram,
)
    requires
        await_diags(e, awaited, browser, name, line, p).len() == 0,
        part_of_expr(e, x),
    ensures
        x is Expr,
        await_diags(x->Expr_0, e is Await, browser, name, line, p).len() == 0,
{
    match e {
        Expr::Call { args, .. } => {
            let k = choose|k: int| 0 <= k < args@.len() && x == Node::Expr(#[trigger] args@[k]);
            lemma_await_among(args@, args@.len() as int, k, browser, name, line, p);
        },
        Expr::MethodCall { receiver, args, .. } => {
            if x != Node::Expr(*receiver) {
                let k = choose|k: int| 0 <= k < args@.len() && x == Node::Expr(#[trigger] args@[k]);
                lemma_await_among(args@, args@.len() as int, k, browser, name, line, p);
            }
        },
        Expr::ListLit(items) => {
            let k = choose|k: int| 0 <= k < items@.len() && x == Node::Expr(#[trigger] items@[k]);
            lemma_await_among(items@, items@.len() as int, k, browser, name, line, p);
        },
        Expr::Record { fields, .. } => {
            let k = choose|k: int| 0 <= k < fields@.len() && x == Node::Expr((#[trigger] fields@[k]).1);
            lemma_await_field(fields@, fields@.len() as int, k, browser, name, line, p);
        },
        _ => {},
    }
}

/// Whether a node is an `await`.
pub open spec fn is_await(n: Node) -> bool {
    n matches Node::Expr(e) && e is Await
}

proof fn lemma_await_chain(
    chain: Seq<Node>,
    k: int,
    browser: bool,
    name: Seq<char>,
    line: nat,
    p: XeresProgram,
)
    requires
        nests(chain),
        0 <= k < chain.len(),
        chain[0] is Expr,
        await_diags(chain[0]->Expr_0, false, browser, name, line, p).len() == 0,
    ensures
        chain[k] is Expr,
        await_diags(chain[k]->Expr_0, k > 0 && is_await(chain[k - 1]), browser, name, line, p).len() == 0,
    decreases k,
{
    if k > 0 {
        lemma_await_chain(chain, k - 1, browser, name, line, p);
        assert(is_part(chain[k - 1], chain[k - 1 + 1]));
        lemma_await_part(
            chain[k - 1]->Expr_0,
            k - 1 > 0 && is_await(chain[k - 2]),
            chain[k],
            browser,
            name,
            line,
            p,
        );
    }
}

/// In an accepted program nothing is awaited on the server, and elsewhere each call of a server function,
/// however deep it stands in an expression, stands directly in an `await`.
pub proof fn law_accepted_calls_of_the_server_are_awaited(
    p: XeresProgram,
    i: int,
    s: Stmt,
    names: Map<Seq<char>, LocalView>,
    chain: Seq<Node>,
    x: Expr,
)
    requires
        accepted(p),
        0 <= i < p.functions@.len(),
        in_function(p.functions@[i], p, s, names),
        own_expr(s) is Some,
        leads(chain, Node::Expr(own_expr(s)->0), Node::Expr(x)),
    ensures
        p.functions@[i].env == EnvModifier::Server ==> !(x is Await),
        p.functions@[i].env != EnvModifier::Server ==> (x matches Expr::Call { callee, .. } ==> ((function_of(
            p,
            callee@,
        ) matches Some(f) && f.env == EnvModifier::Server) ==> chain.len() > 1 && is_await(
            chain[chain.len() - 2],
        ))),
{
    let c = function_site(p.functions@[i]);
    let e = own_expr(s)->0;
    lemma_accepted_statement(p, i, s, names);
    assert(crate::flow::body_expr_diags(e, names, c, p).len() == 0);
    lemma_await_chain(chain, chain.len() - 1, c.env != EnvModifier::Server, c.name, c.line, p);
}

} // verus!
