//! The statement printer shared by both tiers, and the server tier's own layer on top
//! of it, which maps query rows and endpoint responses onto models.
use vstd::prelude::*;
use vstd::string::*;

use crate::ast::{
    find_model, model_index, EnumNode, Expr, MatchArm, MatchPat, ModelNode, PropertyNode, Stmt,
};
use crate::decode::{decodable, decode_json_rust, decode_text, is_decodable};
use crate::emit::{
    arg_text, emit_arg, emit_expr, endpoint_base, endpoint_base_text, endpoint_bearer,
    endpoint_bearer_text, expr_text, pg_params, pg_params_text,
};
use crate::resolve::opt_text;
use crate::text::{cat2, cat3, cat4, cat5, cat6, cat7, cat9, join_text, same, Parts};
use crate::types::{generic_inner, generic_inner_spec};
use crate::unicode::{debug_text, quoted};
use crate::uses::{is_ident, is_ident_text};

verus! {

/// The text of a statement on a tier; `kw` is the binding keyword (`let` or `let mut`).
pub open spec fn stmt_text(s: Stmt, kw: Seq<char>, ts: bool, eps: Seq<Seq<char>>) -> Seq<char>
    decreases s, 0int,
{
    match s {
        Stmt::Let { name, value, .. } => kw + " "@ + name@ + " = "@ + expr_text(value, ts, eps)
            + ";"@,
        Stmt::Assign { name, value } => name@ + " = "@ + expr_text(value, ts, eps) + ";"@,
        Stmt::Return(e) => "return "@ + expr_text(e, ts, eps) + ";"@,
        Stmt::Expr(e) => expr_text(e, ts, eps) + ";"@,
        Stmt::Try { body, handler } => "try { "@ + block_text(body@, kw, ts, eps)
            + " } catch (_e) { "@ + block_text(handler@, kw, ts, eps) + " }"@,
        Stmt::If { cond, then_body, else_body } => {
            let head = if ts {
                "if ("@ + expr_text(cond, ts, eps) + ")"@
            } else {
                "if "@ + expr_text(cond, ts, eps)
            };
            if else_body@.len() == 0 {
                head + " { "@ + block_text(then_body@, kw, ts, eps) + " }"@
            } else {
                head + " { "@ + block_text(then_body@, kw, ts, eps) + " } else { "@ + block_text(
                    else_body@,
                    kw,
                    ts,
                    eps,
                ) + " }"@
            }
        },
        Stmt::For { var, iter, body } => {
            let b = block_text(body@, kw, ts, eps);
            if iter is Range {
                let from = expr_text(*iter->Range_start, ts, eps);
                let to = expr_text(*iter->Range_end, ts, eps);
                if ts {
                    "for (let "@ + var@ + " = "@ + from + "; "@ + var@ + " < "@ + to + "; "@ + var@
                        + "++) { "@ + b + " }"@
                } else {
                    "for "@ + var@ + " in "@ + from + ".."@ + to + " { "@ + b + " }"@
                }
            } else if ts {
                "for (const "@ + var@ + " of "@ + expr_text(iter, ts, eps) + ") { "@ + b + " }"@
            } else {
                "for "@ + var@ + " in "@ + expr_text(iter, ts, eps) + ".clone() { "@ + b + " }"@
            }
        },
        Stmt::While { cond, body } => {
            let head = if ts {
                "while ("@ + expr_text(cond, ts, eps) + ")"@
            } else {
                "while "@ + expr_text(cond, ts, eps)
            };
            head + " { "@ + block_text(body@, kw, ts, eps) + " }"@
        },
        Stmt::Break => "break;"@,
        Stmt::Continue => "continue;"@,
        Stmt::Match { scrutinee, arms } => if ts {
            "switch ("@ + expr_text(scrutinee, ts, eps) + ") { "@ + arms_text(
                arms@,
                arms@.len() as int,
                kw,
                ts,
                eps,
            ) + "}"@
        } else {
            "match ("@ + expr_text(scrutinee, ts, eps) + ").as_str() { "@ + arms_text(
                arms@,
                arms@.len() as int,
                kw,
                ts,
                eps,
            ) + (if has_wildcard(arms@) {
                ""@
            } else {
                "_ => {} "@
            }) + "}"@
        },
        Stmt::Transaction(body) => if ts {
            "{ "@ + block_text(body@, kw, ts, eps) + " }"@
        } else {
            "{ tx_begin(); "@ + block_text(body@, kw, ts, eps) + " tx_end(); }"@
        },
    }
}

/// The texts of the first `n` statements.
pub open spec fn stmts_text(
    ss: Seq<Stmt>,
    n: int,
    kw: Seq<char>,
    ts: bool,
    eps: Seq<Seq<char>>,
) -> Seq<Seq<char>>
    decreases ss, n,
{
    if n <= 0 || n > ss.len() {
        Seq::empty()
    } else {
        stmts_text(ss, n - 1, kw, ts, eps).push(stmt_text(ss[n - 1], kw, ts, eps))
    }
}

/// A block's statements, separated by spaces.
pub open spec fn block_text(ss: Seq<Stmt>, kw: Seq<char>, ts: bool, eps: Seq<Seq<char>>) -> Seq<
    char,
>
    decreases ss, ss.len() + 1,
{
    join_text(stmts_text(ss, ss.len() as int, kw, ts, eps), " "@)
}

/// Whether an arm catches every variant.
pub open spec fn has_wildcard(arms: Seq<MatchArm>) -> bool {
    exists|i: int| 0 <= i < arms.len() && (#[trigger] arms[i]).pattern is Wildcard
}

/// What opens an arm. Enums are string-backed, so a variant is its quoted name.
pub open spec fn arm_head_text(p: MatchPat, ts: bool) -> Seq<char> {
    match p {
        MatchPat::Wildcard => if ts {
            "default: { "@
        } else {
            "_ => { "@
        },
        MatchPat::Variant(v) => if ts {
            "case "@ + debug_text(v@) + ": { "@
        } else {
            debug_text(v@) + " => { "@
        },
    }
}

/// What closes an arm.
pub open spec fn arm_tail_text(ts: bool) -> Seq<char> {
    if ts {
        " break; } "@
    } else {
        " } "@
    }
}

/// The first `n` arms of a `match`.
pub open spec fn arms_text(
    arms: Seq<MatchArm>,
    n: int,
    kw: Seq<char>,
    ts: bool,
    eps: Seq<Seq<char>>,
) -> Seq<char>
    decreases arms, n,
{
    if n <= 0 || n > arms.len() {
        Seq::empty()
    } else {
        arms_text(arms, n - 1, kw, ts, eps) + arm_head_text(arms[n - 1].pattern, ts) + block_text(
            arms[n - 1].body@,
            kw,
            ts,
            eps,
        ) + arm_tail_text(ts)
    }
}

/// What opens an arm.
pub fn arm_head(p: &MatchPat, ts: bool) -> (r: String)
    ensures
        r@ == arm_head_text(*p, ts),
{
    match p {
        MatchPat::Wildcard => if ts {
            "default: { ".to_owned()
        } else {
            "_ => { ".to_owned()
        },
        MatchPat::Variant(v) => if ts {
            cat3("case ", &quoted(v), ": { ")
        } else {
            cat2(&quoted(v), " => { ")
        },
    }
}

fn wildcard_among(arms: &Vec<MatchArm>) -> (r: bool)
    ensures
        r == has_wildcard(arms@),
{
    let mut i: usize = 0;
    while i < arms.len()
        invariant
            i <= arms.len(),
            forall|j: int| 0 <= j < i ==> !((#[trigger] arms@[j]).pattern is Wildcard),
        decreases arms.len() - i,
    {
        match &arms[i].pattern {
            MatchPat::Wildcard => {
                return true;
            },
            MatchPat::Variant(_) => {},
        }
        i = i + 1;
    }
    false
}

fn emit_arms(arms: &Vec<MatchArm>, kw: &str, ts: bool, eps: &Parts) -> (r: String)
    ensures
        r@ == arms_text(arms@, arms@.len() as int, kw@, ts, eps@),
    decreases arms, 0int,
{
    let mut out: String = String::new();
    let mut i: usize = 0;
    while i < arms.len()
        invariant
            i <= arms.len(),
            out@ == arms_text(arms@, i as int, kw@, ts, eps@),
        decreases arms.len() - i,
    {
        let b = emit_block(&arms[i].body, kw, ts, eps);
        let head = arm_head(&arms[i].pattern, ts);
        out = cat4(
            &out,
            &head,
            &b,
            if ts {
                " break; } "
            } else {
                " } "
            },
        );
        i = i + 1;
    }
    out
}

/// Prints a block's statements, separated by spaces.
pub fn emit_block(ss: &Vec<Stmt>, kw: &str, ts: bool, eps: &Parts) -> (r: String)
    ensures
        r@ == block_text(ss@, kw@, ts, eps@),
    decreases ss, 0int,
{
    let mut out = Parts::new();
    let mut i: usize = 0;
    while i < ss.len()
        invariant
            i <= ss.len(),
            out@ == stmts_text(ss@, i as int, kw@, ts, eps@),
        decreases ss.len() - i,
    {
        let t = emit_stmt(&ss[i], kw, ts, eps);
        out.push(t);
        i = i + 1;
    }
    out.join(" ")
}

/// Prints a statement for a tier.
pub fn emit_stmt(s: &Stmt, kw: &str, ts: bool, eps: &Parts) -> (r: String)
    ensures
        r@ == stmt_text(*s, kw@, ts, eps@),
    decreases s, 0int,
{
    match s {
        Stmt::Let { name, value, .. } => cat6(
            kw,
            " ",
            name,
            " = ",
            &emit_expr(value, ts, eps),
            ";",
        ),
        Stmt::Assign { name, value } => cat4(name, " = ", &emit_expr(value, ts, eps), ";"),
        Stmt::Return(e) => cat3("return ", &emit_expr(e, ts, eps), ";"),
        Stmt::Expr(e) => cat2(&emit_expr(e, ts, eps), ";"),
        Stmt::Try { body, handler } => {
            let b = emit_block(body, kw, ts, eps);
            let h = emit_block(handler, kw, ts, eps);
            cat5("try { ", &b, " } catch (_e) { ", &h, " }")
        },
        Stmt::If { cond, then_body, else_body } => {
            let c = emit_expr(cond, ts, eps);
            let head = if ts {
                cat3("if (", &c, ")")
            } else {
                cat2("if ", &c)
            };
            let t = emit_block(then_body, kw, ts, eps);
            if else_body.len() == 0 {
                cat4(&head, " { ", &t, " }")
            } else {
                let o = emit_block(else_body, kw, ts, eps);
                cat6(&head, " { ", &t, " } else { ", &o, " }")
            }
        },
        Stmt::For { var, iter, body } => {
            let b = emit_block(body, kw, ts, eps);
            if let Expr::Range { start, end } = iter {
                let from = emit_expr(start, ts, eps);
                let to = emit_expr(end, ts, eps);
                if ts {
                    let head = cat9(
                        "for (let ",
                        var,
                        " = ",
                        &from,
                        "; ",
                        var,
                        " < ",
                        &to,
                        "; ",
                    );
                    cat5(&head, var, "++) { ", &b, " }")
                } else {
                    cat9("for ", var, " in ", &from, "..", &to, " { ", &b, " }")
                }
            } else if ts {
                cat7("for (const ", var, " of ", &emit_expr(iter, ts, eps), ") { ", &b, " }")
            } else {
                cat7("for ", var, " in ", &emit_expr(iter, ts, eps), ".clone() { ", &b, " }")
            }
        },
        Stmt::While { cond, body } => {
            let c = emit_expr(cond, ts, eps);
            let head = if ts {
                cat3("while (", &c, ")")
            } else {
                cat2("while ", &c)
            };
            let b = emit_block(body, kw, ts, eps);
            cat4(&head, " { ", &b, " }")
        },
        Stmt::Break => "break;".to_owned(),
        Stmt::Continue => "continue;".to_owned(),
        Stmt::Match { scrutinee, arms } => {
            let sc = emit_expr(scrutinee, ts, eps);
            let a = emit_arms(arms, kw, ts, eps);
            if ts {
                cat5("switch (", &sc, ") { ", &a, "}")
            } else {
                cat6(
                    "match (",
                    &sc,
                    ").as_str() { ",
                    &a,
                    if wildcard_among(arms) {
                        ""
                    } else {
                        "_ => {} "
                    },
                    "}",
                )
            }
        },
        Stmt::Transaction(body) => {
            let b = emit_block(body, kw, ts, eps);
            if ts {
                cat3("{ ", &b, " }")
            } else {
                cat3("{ tx_begin(); ", &b, " tx_end(); }")
            }
        },
    }
}

/// `name: __r.get("name"), ...`: a Postgres row's columns mapped onto the first `n` fields.
pub open spec fn row_items(props: Seq<PropertyNode>, n: int) -> Seq<Seq<char>>
    decreases n,
{
    if n <= 0 || n > props.len() {
        Seq::empty()
    } else {
        row_items(props, n - 1).push(
            props[n - 1].name@ + ": __r.get(\""@ + props[n - 1].name@ + "\")"@,
        )
    }
}

/// A Postgres row's columns mapped onto a model's fields.
pub open spec fn row_fields_text(m: ModelNode) -> Seq<char> {
    join_text(row_items(m.properties@, m.properties@.len() as int), ", "@)
}

/// A Postgres row's columns mapped onto a model's fields.
pub fn row_fields(m: &ModelNode) -> (r: String)
    ensures
        r@ == row_fields_text(*m),
{
    let mut out = Parts::new();
    let mut i: usize = 0;
    while i < m.properties.len()
        invariant
            i <= m.properties.len(),
            out@ == row_items(m.properties@, i as int),
        decreases m.properties.len() - i,
    {
        out.push(
            cat4(&m.properties[i].name, ": __r.get(\"", &m.properties[i].name, "\")"),
        );
        i = i + 1;
    }
    out.join(", ")
}

/// The Rust expression that runs a query and maps its rows onto `ty`: `query_one` onto a
/// model or an optional one, `query` onto a list of models. `None` where `ty` is no such type.
pub open spec fn db_map_text(
    method: Seq<char>,
    args: Seq<Expr>,
    ty: Seq<char>,
    models: Seq<ModelNode>,
    eps: Seq<Seq<char>>,
) -> Option<Seq<char>> {
    let sql = arg_text(args, 0, false, eps, "\"\""@);
    let params = pg_params_text(args, eps);
    if method == "query_one"@ {
        match generic_inner_spec("Optional"@, ty) {
            Some(inner) => match model_index(models, inner) {
                Some(i) => Some(
                    "{ let __rows = db_query(&("@ + sql + "), "@ + params
                        + "); match __rows.into_iter().next() { Some(__r) => Some("@ + inner
                        + " { "@ + row_fields_text(models[i]) + " }), None => None } }"@,
                ),
                None => None,
            },
            None => match model_index(models, ty) {
                Some(i) => Some(
                    "{ let __rows = db_query(&("@ + sql + "), "@ + params
                        + "); let __r = __rows.into_iter().next().expect(\"xeres: query_one returned no rows\"); "@
                        + ty + " { "@ + row_fields_text(models[i]) + " } }"@,
                ),
                None => None,
            },
        }
    } else if method == "query"@ {
        match generic_inner_spec("List"@, ty) {
            Some(inner) => match model_index(models, inner) {
                Some(i) => Some(
                    "db_query(&("@ + sql + "), "@ + params + ").into_iter().map(|__r| "@ + inner
                        + " { "@ + row_fields_text(models[i]) + " }).collect()"@,
                ),
                None => None,
            },
            None => None,
        }
    } else {
        None
    }
}

/// The Rust expression that runs a query and maps its rows onto `ty`.
pub fn db_map_expr(
    method: &str,
    args: &Vec<Expr>,
    ty: &str,
    models: &Vec<ModelNode>,
    eps: &Parts,
) -> (r: Option<String>)
    ensures
        match r {
            Some(t) => db_map_text(method@, args@, ty@, models@, eps@) == Some(t@),
            None => db_map_text(method@, args@, ty@, models@, eps@) is None,
        },
{
    let sql = emit_arg(args, 0, false, eps, "\"\"");
    let params = pg_params(args, eps);
    if same(method, "query_one") {
        if let Some(inner) = generic_inner("Optional", ty) {
            return match find_model(models, inner) {
                Some(m) => Some(
                    cat9(
                        "{ let __rows = db_query(&(",
                        &sql,
                        "), ",
                        &params,
                        "); match __rows.into_iter().next() { Some(__r) => Some(",
                        inner,
                        " { ",
                        &row_fields(m),
                        " }), None => None } }",
                    ),
                ),
                None => None,
            };
        }
        return match find_model(models, ty) {
            Some(m) => Some(
                cat9(
                    "{ let __rows = db_query(&(",
                    &sql,
                    "), ",
                    &params,
                    "); let __r = __rows.into_iter().next().expect(\"xeres: query_one returned no rows\"); ",
                    ty,
                    " { ",
                    &row_fields(m),
                    " } }",
                ),
            ),
            None => None,
        };
    }
    if same(method, "query") {
        return match generic_inner("List", ty) {
            Some(inner) => match find_model(models, inner) {
                Some(m) => Some(
                    cat9(
                        "db_query(&(",
                        &sql,
                        "), ",
                        &params,
                        ").into_iter().map(|__r| ",
                        inner,
                        " { ",
                        &row_fields(m),
                        " }).collect()",
                    ),
                ),
                None => None,
            },
            None => None,
        };
    }
    None
}

/// The element type of a one-level `List` or `Optional`, or the type itself.
pub open spec fn bare_type(ty: Seq<char>) -> Seq<char> {
    match generic_inner_spec("List"@, ty) {
        Some(inner) => inner,
        None => match generic_inner_spec("Optional"@, ty) {
            Some(inner) => inner,
            None => ty,
        },
    }
}

/// The element type of a one-level `List` or `Optional`, or the type itself.
pub fn bare<'a>(ty: &'a str) -> (r: &'a str)
    ensures
        r@ == bare_type(ty@),
{
    match generic_inner("List", ty) {
        Some(inner) => inner,
        None => match generic_inner("Optional", ty) {
            Some(inner) => inner,
            None => ty,
        },
    }
}

/// The Rust expression that runs `endpoint.get(path)` and decodes its JSON response into a
/// model shape; `None` where `ty` is no model shape (a `String` stays the raw body).
pub open spec fn endpoint_map_text(
    n: Seq<char>,
    args: Seq<Expr>,
    ty: Seq<char>,
    models: Seq<ModelNode>,
    enums: Seq<EnumNode>,
    eps: Seq<Seq<char>>,
) -> Option<Seq<char>> {
    if model_index(models, bare_type(ty)) is None {
        None
    } else {
        Some(
            "{ let __body = jparse(&http_get("@ + endpoint_base_text(n) + ", &("@ + arg_text(
                args,
                0,
                false,
                eps,
                "String::new()"@,
            ) + "), &"@ + endpoint_bearer_text(n) + ")); "@ + decode_text(
                "Some(&__body)"@,
                ty,
                models,
                enums,
                0,
                models.len(),
            ) + " }"@,
        )
    }
}

/// The Rust expression that runs `endpoint.get(path)` and decodes its JSON response.
pub fn endpoint_map_expr(
    n: &str,
    args: &Vec<Expr>,
    ty: &str,
    models: &Vec<ModelNode>,
    enums: &Vec<EnumNode>,
    eps: &Parts,
) -> (r: Option<String>)
    requires
        model_index(models@, bare_type(ty@)) is Some ==> decodable(models@, ty@, models@.len()),
    ensures
        match r {
            Some(t) => endpoint_map_text(n@, args@, ty@, models@, enums@, eps@) == Some(t@),
            None => endpoint_map_text(n@, args@, ty@, models@, enums@, eps@) is None,
        },
{
    match find_model(models, bare(ty)) {
        None => None,
        Some(_) => {
            let path = emit_arg(args, 0, false, eps, "String::new()");
            let decode = decode_json_rust("Some(&__body)", ty, models, enums);
            Some(
                cat9(
                    "{ let __body = jparse(&http_get(",
                    &endpoint_base(n),
                    ", &(",
                    &path,
                    "), &",
                    &endpoint_bearer(n),
                    ")); ",
                    &decode,
                    " }",
                ),
            )
        },
    }
}

/// What a value computed by a query or an endpoint call is mapped onto, where `ty` is the
/// type it is returned as or bound with.
pub open spec fn mapped_text(
    e: Expr,
    ty: Seq<char>,
    models: Seq<ModelNode>,
    enums: Seq<EnumNode>,
    eps: Seq<Seq<char>>,
) -> Option<Seq<char>> {
    match e {
        Expr::MethodCall { receiver, method, args } => {
            let from_db = if is_ident_text(*receiver, "db"@) {
                db_map_text(method@, args@, ty, models, eps)
            } else {
                None
            };
            if from_db is Some {
                from_db
            } else if *receiver is Ident && eps.contains(receiver->Ident_0@) && method@
                == "get"@ {
                endpoint_map_text(receiver->Ident_0@, args@, ty, models, enums, eps)
            } else {
                None
            }
        },
        _ => None,
    }
}

/// Whether an endpoint's response is decoded into `ty`, where that is the type that a value is returned
/// as or bound with.
pub open spec fn decoded_into(e: Expr, ty: Seq<char>, models: Seq<ModelNode>, eps: Seq<Seq<char>>) -> bool {
    match e {
        Expr::MethodCall { receiver, method, .. } => *receiver is Ident && eps.contains(
            receiver->Ident_0@,
        ) && method@ == "get"@ && model_index(models, bare_type(ty)) is Some,
        _ => false,
    }
}

/// Whether a server-tier statement decodes a response into `t`.
pub open spec fn stmt_decodes(
    s: Stmt,
    ret: Option<String>,
    models: Seq<ModelNode>,
    eps: Seq<Seq<char>>,
    t: Seq<char>,
) -> bool
    decreases s,
{
    match s {
        Stmt::Return(e) => opt_text(ret) == Some(t) && decoded_into(e, t, models, eps),
        Stmt::Let { type_ann, value, .. } => opt_text(type_ann) == Some(t) && decoded_into(
            value,
            t,
            models,
            eps,
        ),
        Stmt::Transaction(body) => exists|i: int|
            0 <= i < body@.len() && stmt_decodes(#[trigger] body@[i], ret, models, eps, t),
        _ => false,
    }
}

/// Whether one of the server-tier statements decodes a response into `t`.
pub open spec fn stmts_decode(
    ss: Seq<Stmt>,
    ret: Option<String>,
    models: Seq<ModelNode>,
    eps: Seq<Seq<char>>,
    t: Seq<char>,
) -> bool {
    exists|i: int| 0 <= i < ss.len() && stmt_decodes(#[trigger] ss[i], ret, models, eps, t)
}

/// Whether the decoders of a server-tier statement come to an end.
pub open spec fn stmt_ends(
    s: Stmt,
    ret: Option<String>,
    models: Seq<ModelNode>,
    eps: Seq<Seq<char>>,
) -> bool {
    forall|t: Seq<char>|
        stmt_decodes(s, ret, models, eps, t) ==> #[trigger] decodable(models, t, models.len())
}

/// Whether the decoders of server-tier statements come to an end.
pub open spec fn stmts_end(
    ss: Seq<Stmt>,
    ret: Option<String>,
    models: Seq<ModelNode>,
    eps: Seq<Seq<char>>,
) -> bool {
    forall|t: Seq<char>|
        stmts_decode(ss, ret, models, eps, t) ==> #[trigger] decodable(models, t, models.len())
}

fn is_decoded_into(e: &Expr, ty: &str, models: &Vec<ModelNode>, eps: &Parts) -> (r: bool)
    ensures
        r == decoded_into(*e, ty@, models@, eps@),
{
    match e {
        Expr::MethodCall { receiver, method, .. } => match &**receiver {
            Expr::Ident(n) => eps.contains(n) && same(method, "get") && find_model(
                models,
                bare(ty),
            ).is_some(),
            _ => false,
        },
        _ => false,
    }
}

fn mapped_ends(e: &Expr, ty: &Option<String>, models: &Vec<ModelNode>, eps: &Parts) -> (r: bool)
    ensures
        r == (ty matches Some(x) ==> (decoded_into(*e, x@, models@, eps@) ==> decodable(
            models@,
            x@,
            models@.len(),
        ))),
{
    match ty {
        Some(x) => !is_decoded_into(e, x, models, eps) || is_decodable(models, x, models.len()),
        None => true,
    }
}

fn decoders_end_in_stmt(
    s: &Stmt,
    ret: &Option<String>,
    models: &Vec<ModelNode>,
    eps: &Parts,
) -> (r: bool)
    ensures
        r == stmt_ends(*s, *ret, models@, eps@),
    decreases s, 0int,
{
    match s {
        Stmt::Return(e) => mapped_ends(e, ret, models, eps),
        Stmt::Let { type_ann, value, .. } => mapped_ends(value, type_ann, models, eps),
        Stmt::Transaction(body) => decoders_end_in(body, ret, models, eps),
        _ => true,
    }
}

/// Whether the decoders of server-tier statements come to an end.
pub fn decoders_end_in(
    ss: &Vec<Stmt>,
    ret: &Option<String>,
    models: &Vec<ModelNode>,
    eps: &Parts,
) -> (r: bool)
    ensures
        r == stmts_end(ss@, *ret, models@, eps@),
    decreases ss, 0int,
{
    let mut i: usize = 0;
    while i < ss.len()
        invariant
            i <= ss.len(),
            forall|j: int| 0 <= j < i ==> stmt_ends(#[trigger] ss@[j], *ret, models@, eps@),
        decreases ss.len() - i,
    {
        if !decoders_end_in_stmt(&ss[i], ret, models, eps) {
            proof {
                assert(!stmt_ends(ss@[i as int], *ret, models@, eps@));
            }
            return false;
        }
        i = i + 1;
    }
    true
}

fn emit_mapped(
    e: &Expr,
    ty: &str,
    models: &Vec<ModelNode>,
    enums: &Vec<EnumNode>,
    eps: &Parts,
) -> (r: Option<String>)
    requires
        decoded_into(*e, ty@, models@, eps@) ==> decodable(models@, ty@, models@.len()),
    ensures
        match r {
            Some(t) => mapped_text(*e, ty@, models@, enums@, eps@) == Some(t@),
            None => mapped_text(*e, ty@, models@, enums@, eps@) is None,
        },
{
    match e {
        Expr::MethodCall { receiver, method, args } => {
            if is_ident(receiver, "db") {
                if let Some(t) = db_map_expr(method, args, ty, models, eps) {
                    return Some(t);
                }
            }
            if let Expr::Ident(n) = &**receiver {
                if eps.contains(n) && same(method, "get") {
                    return endpoint_map_expr(n, args, ty, models, enums, eps);
                }
            }
            None
        },
        _ => None,
    }
}

/// The text of a server-tier statement: `return` and typed `let` map query rows and endpoint
/// responses onto the declared type, and a transaction does so for its body.
pub open spec fn server_stmt_text(
    s: Stmt,
    ret: Option<String>,
    models: Seq<ModelNode>,
    enums: Seq<EnumNode>,
    eps: Seq<Seq<char>>,
) -> Seq<char>
    decreases s, 0int,
{
    let plain = stmt_text(s, "let mut"@, false, eps);
    match s {
        Stmt::Return(e) => match ret {
            Some(ty) => match mapped_text(e, ty@, models, enums, eps) {
                Some(t) => "return "@ + t + ";"@,
                None => plain,
            },
            None => plain,
        },
        Stmt::Let { name, type_ann: Some(ty), value } => match mapped_text(
            value,
            ty@,
            models,
            enums,
            eps,
        ) {
            Some(t) => "let mut "@ + name@ + " = "@ + t + ";"@,
            None => plain,
        },
        Stmt::Transaction(body) => "{ tx_begin(); "@ + join_text(
            server_stmts_text(body@, body@.len() as int, ret, models, enums, eps),
            " "@,
        ) + " tx_end(); }"@,
        _ => plain,
    }
}

/// The texts of the first `n` server-tier statements.
pub open spec fn server_stmts_text(
    ss: Seq<Stmt>,
    n: int,
    ret: Option<String>,
    models: Seq<ModelNode>,
    enums: Seq<EnumNode>,
    eps: Seq<Seq<char>>,
) -> Seq<Seq<char>>
    decreases ss, n,
{
    if n <= 0 || n > ss.len() {
        Seq::empty()
    } else {
        server_stmts_text(ss, n - 1, ret, models, enums, eps).push(
            server_stmt_text(ss[n - 1], ret, models, enums, eps),
        )
    }
}

/// Prints the statements of a server-tier body.
pub fn emit_server_stmts(
    ss: &Vec<Stmt>,
    ret: &Option<String>,
    models: &Vec<ModelNode>,
    enums: &Vec<EnumNode>,
    eps: &Parts,
) -> (r: Parts)
    requires
        stmts_end(ss@, *ret, models@, eps@),
    ensures
        r@ == server_stmts_text(ss@, ss@.len() as int, *ret, models@, enums@, eps@),
    decreases ss, 0int,
{
    let mut out = Parts::new();
    let mut i: usize = 0;
    while i < ss.len()
        invariant
            i <= ss.len(),
            stmts_end(ss@, *ret, models@, eps@),
            out@ == server_stmts_text(ss@, i as int, *ret, models@, enums@, eps@),
        decreases ss.len() - i,
    {
        proof {
            assert(stmt_ends(ss@[i as int], *ret, models@, eps@));
        }
        let t = emit_server_stmt(&ss[i], ret, models, enums, eps);
        out.push(t);
        i = i + 1;
    }
    out
}

/// Prints a server-tier statement of a function that returns `ret`.
pub fn emit_server_stmt(
    s: &Stmt,
    ret: &Option<String>,
    models: &Vec<ModelNode>,
    enums: &Vec<EnumNode>,
    eps: &Parts,
) -> (r: String)
    requires
        stmt_ends(*s, *ret, models@, eps@),
    ensures
        r@ == server_stmt_text(*s, *ret, models@, enums@, eps@),
    decreases s, 0int,
{
    match s {
        Stmt::Return(e) => {
            if let Some(ty) = ret {
                if let Some(t) = emit_mapped(e, ty, models, enums, eps) {
                    return cat3("return ", &t, ";");
                }
            }
            emit_stmt(s, "let mut", false, eps)
        },
        Stmt::Let { name, type_ann, value } => {
            if let Some(ty) = type_ann {
                if let Some(t) = emit_mapped(value, ty, models, enums, eps) {
                    return cat5("let mut ", name, " = ", &t, ";");
                }
            }
            emit_stmt(s, "let mut", false, eps)
        },
        Stmt::Transaction(body) => {
            let inner = emit_server_stmts(body, ret, models, enums, eps).join(" ");
            cat3("{ tx_begin(); ", &inner, " tx_end(); }")
        },
        _ => emit_stmt(s, "let mut", false, eps),
    }
}

} // verus!
