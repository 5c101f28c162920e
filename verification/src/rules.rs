//! The rules on expressions: tier boundaries, capabilities, builtins, navigation and records.
use vstd::prelude::*;
use vstd::string::*;

use crate::ast::{
    BinOp, EnumNode, EnvModifier, Expr, MatchArm, MatchPat, Param, PropertyNode, XeresProgram,
};
use crate::diagnostics::{clean, DiagView, Report};
use crate::emit::{binop_sym, binop_text};
use crate::messages;
use crate::resolve::{
    closure_locals, closure_scope, elem_of, field_prop, get_field_prop, inner_of, is_list_method,
    is_string_method, list_elem, list_method, opt_text, optional_inner, resolve_type,
    string_method, type_of, LocalView, Locals,
};
use crate::scope::{bindings_diags, check_bindings};
use crate::strmap::StrMap;
use crate::table::{
    collection_of, endpoint_of, enumeration_of, env_label, env_text, fits, get_collection,
    get_endpoint, get_enumeration, get_model, get_screen, model_of, screen_of, type_compatible,
};
use crate::taint::{is_tainted, tainted};
use crate::text::{join_text, same, Parts};
use crate::types::{generic_inner, generic_inner_spec};
use crate::uses::{is_ident, is_ident_text};

verus! {

/// Whether a name is among the variants of an enum.
pub open spec fn has_variant(en: EnumNode, v: Seq<char>) -> bool {
    exists|i: int| 0 <= i < en.variants@.len() && (#[trigger] en.variants@[i])@ == v
}

/// Whether a name is among the variants of an enum.
pub fn variant_declared(en: &EnumNode, v: &str) -> (r: bool)
    ensures
        r == has_variant(*en, v@),
{
    let mut i: usize = 0;
    while i < en.variants.len()
        invariant
            i <= en.variants.len(),
            forall|j: int| 0 <= j < i ==> (#[trigger] en.variants@[j])@ != v@,
        decreases en.variants.len() - i,
    {
        if same(&en.variants[i], v) {
            return true;
        }
        i = i + 1;
    }
    false
}

/// The arms among the first `n` that name no variant of the enum.
pub open spec fn unknown_arms(arms: Seq<MatchArm>, n: int, en: EnumNode, name: Seq<char>, line: nat) -> Seq<
    DiagView,
>
    decreases n,
{
    if n <= 0 || n > arms.len() {
        clean()
    } else {
        unknown_arms(arms, n - 1, en, name, line) + (match arms[n - 1].pattern {
            MatchPat::Variant(v) => if has_variant(en, v@) {
                clean()
            } else {
                messages::no_variant_diag(name, v@, line)
            },
            MatchPat::Wildcard => clean(),
        })
    }
}

/// Whether an arm names this variant.
pub open spec fn arm_covers(arms: Seq<MatchArm>, v: Seq<char>) -> bool {
    exists|i: int|
        0 <= i < arms.len() && (#[trigger] arms[i]).pattern is Variant
            && arms[i].pattern->Variant_0@ == v
}

/// The first `n` variants that no arm names.
pub open spec fn missing_variants(vs: Seq<String>, n: int, arms: Seq<MatchArm>) -> Seq<Seq<char>>
    decreases n,
{
    if n <= 0 || n > vs.len() {
        Seq::empty()
    } else if arm_covers(arms, vs[n - 1]@) {
        missing_variants(vs, n - 1, arms)
    } else {
        missing_variants(vs, n - 1, arms).push(vs[n - 1]@)
    }
}

/// Whether an arm catches everything.
pub open spec fn catches_all(arms: Seq<MatchArm>) -> bool {
    exists|i: int| 0 <= i < arms.len() && (#[trigger] arms[i]).pattern is Wildcard
}

/// R20: a `match` is on an enum, each arm names a variant of it, and every variant has an arm.
pub open spec fn match_diags(
    scrutinee: Expr,
    arms: Seq<MatchArm>,
    ls: Map<Seq<char>, LocalView>,
    p: XeresProgram,
    line: nat,
) -> Seq<DiagView> {
    match type_of(scrutinee, ls, p) {
        None => clean(),
        Some(t) => match enumeration_of(p, t) {
            None => messages::match_not_enum_diag(t, line),
            Some(en) => {
                let missing = missing_variants(en.variants@, en.variants@.len() as int, arms);
                unknown_arms(arms, arms.len() as int, en, t, line) + (if catches_all(arms)
                    || missing.len() == 0 {
                    clean()
                } else {
                    messages::not_exhaustive_diag(t, join_text(missing, ", "@), line)
                })
            },
        },
    }
}

fn covers(arms: &Vec<MatchArm>, v: &str) -> (r: bool)
    ensures
        r == arm_covers(arms@, v@),
{
    let mut i: usize = 0;
    while i < arms.len()
        invariant
            i <= arms.len(),
            forall|j: int|
                0 <= j < i ==> !((#[trigger] arms@[j]).pattern is Variant
                    && arms@[j].pattern->Variant_0@ == v@),
        decreases arms.len() - i,
    {
        if let MatchPat::Variant(x) = &arms[i].pattern {
            if same(x, v) {
                return true;
            }
        }
        i = i + 1;
    }
    false
}

fn wildcard(arms: &Vec<MatchArm>) -> (r: bool)
    ensures
        r == catches_all(arms@),
{
    let mut i: usize = 0;
    while i < arms.len()
        invariant
            i <= arms.len(),
            forall|j: int| 0 <= j < i ==> !((#[trigger] arms@[j]).pattern is Wildcard),
        decreases arms.len() - i,
    {
        if let MatchPat::Wildcard = &arms[i].pattern {
            return true;
        }
        i = i + 1;
    }
    false
}

/// R20: checks the patterns of a `match`.
pub fn check_match_patterns(
    scrutinee: &Expr,
    arms: &Vec<MatchArm>,
    ls: &Locals,
    p: &XeresProgram,
    line: usize,
) -> (r: Report)
    ensures
        r@ == match_diags(*scrutinee, arms@, ls@, *p, line as nat),
{
    match resolve_type(scrutinee, ls, p) {
        None => Report::new(),
        Some(t) => match get_enumeration(p, &t) {
            None => messages::match_not_enum(&t, line),
            Some(en) => {
                let mut out = Report::new();
                let mut i: usize = 0;
                while i < arms.len()
                    invariant
                        i <= arms.len(),
                        out@ == unknown_arms(arms@, i as int, *en, t@, line as nat),
                    decreases arms.len() - i,
                {
                    let d = match &arms[i].pattern {
                        MatchPat::Variant(v) => if variant_declared(en, v) {
                            Report::new()
                        } else {
                            messages::no_variant(&t, v, line)
                        },
                        MatchPat::Wildcard => Report::new(),
                    };
                    out.append(d);
                    i = i + 1;
                }
                let mut missing = Parts::new();
                let mut j: usize = 0;
                while j < en.variants.len()
                    invariant
                        j <= en.variants.len(),
                        missing@ == missing_variants(en.variants@, j as int, arms@),
                    decreases en.variants.len() - j,
                {
                    if !covers(arms, &en.variants[j]) {
                        missing.push(en.variants[j].clone());
                    }
                    j = j + 1;
                }
                let d = if wildcard(arms) || missing.len() == 0 {
                    Report::new()
                } else {
                    messages::not_exhaustive(&t, &missing.join(", "), line)
                };
                out.append(d);
                out
            },
        },
    }
}

/// Whether the first `n` arguments hold one of this name.
pub open spec fn named_among(args: Seq<(String, Expr)>, n: int, name: Seq<char>) -> bool {
    exists|i: int| 0 <= i < n && i < args.len() && (#[trigger] args[i]).0@ == name
}

/// Whether the first `n` arguments hold one of this name.
pub fn is_named_among(args: &Vec<(String, Expr)>, n: usize, name: &str) -> (r: bool)
    ensures
        r == named_among(args@, n as int, name@),
{
    let mut i: usize = 0;
    while i < n && i < args.len()
        invariant
            i <= n,
            i <= args.len(),
            forall|j: int| 0 <= j < i ==> (#[trigger] args@[j]).0@ != name@,
        decreases args.len() - i,
    {
        if same(&args[i].0, name) {
            return true;
        }
        i = i + 1;
    }
    false
}

/// The index of the first parameter of this name from `i` on.
pub open spec fn param_index(ps: Seq<Param>, name: Seq<char>, i: int) -> Option<int>
    decreases ps.len() - i,
{
    if i < 0 || i >= ps.len() {
        None
    } else if ps[i].name@ == name {
        Some(i)
    } else {
        param_index(ps, name, i + 1)
    }
}

/// The first parameter of this name.
pub fn find_param(ps: &Vec<Param>, name: &str) -> (r: Option<usize>)
    ensures
        match r {
            Some(i) => param_index(ps@, name@, 0) == Some(i as int) && i < ps@.len(),
            None => param_index(ps@, name@, 0) is None,
        },
{
    let mut i: usize = 0;
    while i < ps.len()
        invariant
            i <= ps.len(),
            param_index(ps@, name@, 0) == param_index(ps@, name@, i as int),
        decreases ps.len() - i,
    {
        if same(&ps[i].name, name) {
            return Some(i);
        }
        i = i + 1;
    }
    None
}

/// Whether a value of this type may be left out: an `Optional` or a `List`.
pub open spec fn omittable(t: Seq<char>) -> bool {
    generic_inner_spec("Optional"@, t) is Some || generic_inner_spec("List"@, t) is Some
}

/// Whether a value of this type may be left out.
pub fn is_omittable(t: &str) -> (r: bool)
    ensures
        r == omittable(t@),
{
    generic_inner("Optional", t).is_some() || generic_inner("List", t).is_some()
}

/// What the first `n` parameters given to a route report: each is in scope, given once, a parameter
/// of the route, and of its type.
pub open spec fn nav_fields(
    fields: Seq<(String, Expr)>,
    n: int,
    name: Seq<char>,
    params: Seq<Param>,
    sname: Seq<char>,
    line: nat,
    ls: Map<Seq<char>, LocalView>,
    p: XeresProgram,
) -> Seq<DiagView>
    decreases n,
{
    if n <= 0 || n > fields.len() {
        clean()
    } else {
        let f = fields[n - 1].0@;
        let v = fields[n - 1].1;
        nav_fields(fields, n - 1, name, params, sname, line, ls, p) + bindings_diags(
            v,
            ls,
            sname,
            line,
            p,
        ) + (if named_among(fields, n - 1, f) {
            messages::nav_twice_diag(f, name, line)
        } else {
            clean()
        }) + (match param_index(params, f, 0) {
            None => messages::nav_no_param_diag(f, name, line),
            Some(i) => match type_of(v, ls, p) {
                Some(actual) => if fits(actual, params[i].ty@) {
                    clean()
                } else {
                    messages::nav_param_type_diag(f, name, params[i].ty@, actual, line)
                },
                None => clean(),
            },
        })
    }
}

/// The first `n` parameters of a route that are not given.
pub open spec fn nav_missing_params(
    params: Seq<Param>,
    n: int,
    fields: Seq<(String, Expr)>,
    site: Seq<char>,
    name: Seq<char>,
    line: nat,
) -> Seq<DiagView>
    decreases n,
{
    if n <= 0 || n > params.len() {
        clean()
    } else {
        nav_missing_params(params, n - 1, fields, site, name, line) + (if named_among(
            fields,
            fields.len() as int,
            params[n - 1].name@,
        ) {
            clean()
        } else {
            messages::nav_missing_diag(site, name, params[n - 1].name@, line)
        })
    }
}

/// R28 and R32: a navigation target is a screen without parameters, or a route with exactly the
/// parameters that it takes.
pub open spec fn nav_diags(
    target: Expr,
    site: Seq<char>,
    sname: Seq<char>,
    line: nat,
    ls: Map<Seq<char>, LocalView>,
    p: XeresProgram,
) -> Seq<DiagView> {
    match target {
        Expr::Ident(name) => match screen_of(p, name@) {
            None => messages::nav_unknown_diag(site, name@, line),
            Some(sc) => if sc.route is Some {
                messages::nav_needs_params_diag(site, name@, line)
            } else if sc.params@.len() > 0 {
                messages::nav_props_diag(site, name@, line)
            } else {
                clean()
            },
        },
        Expr::Record { name, fields } => match screen_of(p, name@) {
            None => messages::nav_unknown_screen_diag(site, name@, line),
            Some(sc) => if sc.route is None {
                messages::nav_no_route_diag(site, name@, line)
            } else {
                nav_fields(
                    fields@,
                    fields@.len() as int,
                    name@,
                    sc.params@,
                    sname,
                    line,
                    ls,
                    p,
                ) + nav_missing_params(
                    sc.params@,
                    sc.params@.len() as int,
                    fields@,
                    site,
                    name@,
                    line,
                )
            },
        },
        _ => messages::nav_not_screen_diag(site, sname, line),
    }
}

fn check_nav_fields(
    fields: &Vec<(String, Expr)>,
    name: &str,
    params: &Vec<Param>,
    sname: &str,
    line: usize,
    ls: &Locals,
    p: &XeresProgram,
) -> (r: Report)
    ensures
        r@ == nav_fields(
            fields@,
            fields@.len() as int,
            name@,
            params@,
            sname@,
            line as nat,
            ls@,
            *p,
        ),
{
    let mut out = Report::new();
    let mut i: usize = 0;
    while i < fields.len()
        invariant
            i <= fields.len(),
            out@ == nav_fields(fields@, i as int, name@, params@, sname@, line as nat, ls@, *p),
        decreases fields.len() - i,
    {
        let f = &fields[i].0;
        let v = &fields[i].1;
        out.append(check_bindings(v, ls, sname, line, p));
        let twice = if is_named_among(fields, i, f) {
            messages::nav_twice(f, name, line)
        } else {
            Report::new()
        };
        out.append(twice);
        let d = match find_param(params, f) {
            None => messages::nav_no_param(f, name, line),
            Some(k) => match resolve_type(v, ls, p) {
                Some(actual) => if type_compatible(&actual, &params[k].ty) {
                    Report::new()
                } else {
                    messages::nav_param_type(f, name, &params[k].ty, &actual, line)
                },
                None => Report::new(),
            },
        };
        out.append(d);
        i = i + 1;
    }
    out
}

/// R28 and R32: checks a navigation target.
pub fn check_nav_target(
    target: &Expr,
    site: &str,
    sname: &str,
    line: usize,
    ls: &Locals,
    p: &XeresProgram,
) -> (r: Report)
    ensures
        r@ == nav_diags(*target, site@, sname@, line as nat, ls@, *p),
{
    match target {
        Expr::Ident(name) => match get_screen(p, name) {
            None => messages::nav_unknown(site, name, line),
            Some(sc) => if sc.route.is_some() {
                messages::nav_needs_params(site, name, line)
            } else if sc.params.len() > 0 {
                messages::nav_props(site, name, line)
            } else {
                Report::new()
            },
        },
        Expr::Record { name, fields } => match get_screen(p, name) {
            None => messages::nav_unknown_screen(site, name, line),
            Some(sc) => {
                if sc.route.is_none() {
                    return messages::nav_no_route(site, name, line);
                }
                let mut out = check_nav_fields(fields, name, &sc.params, sname, line, ls, p);
                let mut missing = Report::new();
                let mut i: usize = 0;
                while i < sc.params.len()
                    invariant
                        i <= sc.params.len(),
                        missing@ == nav_missing_params(
                            sc.params@,
                            i as int,
                            fields@,
                            site@,
                            name@,
                            line as nat,
                        ),
                    decreases sc.params.len() - i,
                {
                    let d = if is_named_among(fields, fields.len(), &sc.params[i].name) {
                        Report::new()
                    } else {
                        messages::nav_missing(site, name, &sc.params[i].name, line)
                    };
                    missing.append(d);
                    i = i + 1;
                }
                out.append(missing);
                out
            },
        },
        _ => messages::nav_not_screen(site, sname, line),
    }
}

/// What the first `n` fields of a record literal report.
pub open spec fn record_fields(
    fields: Seq<(String, Expr)>,
    n: int,
    name: Seq<char>,
    ls: Map<Seq<char>, LocalView>,
    line: nat,
    p: XeresProgram,
) -> Seq<DiagView>
    decreases n,
{
    if n <= 0 || n > fields.len() {
        clean()
    } else {
        let f = fields[n - 1].0@;
        record_fields(fields, n - 1, name, ls, line, p) + (match field_prop(name, f, p) {
            None => messages::no_field_diag(name, f, line),
            Some(prop) => (if named_among(fields, n - 1, f) {
                messages::field_twice_diag(f, name, line)
            } else {
                clean()
            }) + (match type_of(fields[n - 1].1, ls, p) {
                Some(actual) => if fits(actual, prop.data_type@) {
                    clean()
                } else {
                    messages::field_value_diag(name, f, prop.data_type@, actual, line)
                },
                None => clean(),
            }),
        })
    }
}

/// The first `n` fields of a model that a record literal lacks.
pub open spec fn record_missing(
    props: Seq<PropertyNode>,
    n: int,
    fields: Seq<(String, Expr)>,
    name: Seq<char>,
    line: nat,
) -> Seq<DiagView>
    decreases n,
{
    if n <= 0 || n > props.len() {
        clean()
    } else {
        record_missing(props, n - 1, fields, name, line) + (if named_among(
            fields,
            fields.len() as int,
            props[n - 1].name@,
        ) || omittable(props[n - 1].data_type@) {
            clean()
        } else {
            messages::missing_field_diag(props[n - 1].name@, name, line)
        })
    }
}

/// R9: a record literal names a model and gives each of its fields once, with a value of its type.
pub open spec fn record_diags(
    name: Seq<char>,
    fields: Seq<(String, Expr)>,
    ls: Map<Seq<char>, LocalView>,
    line: nat,
    p: XeresProgram,
) -> Seq<DiagView> {
    match model_of(p, name) {
        None => messages::not_model_diag(name, line),
        Some(m) => record_fields(fields, fields.len() as int, name, ls, line, p) + record_missing(
            m.properties@,
            m.properties@.len() as int,
            fields,
            name,
            line,
        ),
    }
}

/// R9: checks a record literal.
pub fn check_record(
    name: &str,
    fields: &Vec<(String, Expr)>,
    ls: &Locals,
    line: usize,
    p: &XeresProgram,
) -> (r: Report)
    ensures
        r@ == record_diags(name@, fields@, ls@, line as nat, *p),
{
    match get_model(p, name) {
        None => messages::not_model(name, line),
        Some(m) => {
            let mut out = Report::new();
            let mut i: usize = 0;
            while i < fields.len()
                invariant
                    i <= fields.len(),
                    out@ == record_fields(fields@, i as int, name@, ls@, line as nat, *p),
                decreases fields.len() - i,
            {
                let f = &fields[i].0;
                let d = match get_field_prop(name, f, p) {
                    None => messages::no_field(name, f, line),
                    Some(prop) => {
                        let mut both = if is_named_among(fields, i, f) {
                            messages::field_twice(f, name, line)
                        } else {
                            Report::new()
                        };
                        let ty = match resolve_type(&fields[i].1, ls, p) {
                            Some(actual) => if type_compatible(&actual, &prop.data_type) {
                                Report::new()
                            } else {
                                messages::field_value(name, f, &prop.data_type, &actual, line)
                            },
                            None => Report::new(),
                        };
                        both.append(ty);
                        both
                    },
                };
                out.append(d);
                i = i + 1;
            }
            let mut missing = Report::new();
            let mut j: usize = 0;
            while j < m.properties.len()
                invariant
                    j <= m.properties.len(),
                    missing@ == record_missing(m.properties@, j as int, fields@, name@, line as nat),
                decreases m.properties.len() - j,
            {
                let q = &m.properties[j];
                let d = if is_named_among(fields, fields.len(), &q.name) || is_omittable(
                    &q.data_type,
                ) {
                    Report::new()
                } else {
                    messages::missing_field(&q.name, name, line)
                };
                missing.append(d);
                j = j + 1;
            }
            out.append(missing);
            out
        },
    }
}

/// R15 and R23: `db` is server-only, has three methods, and takes its SQL as a literal.
pub open spec fn db_diags(
    method: Seq<char>,
    args: Seq<Expr>,
    env: EnvModifier,
    name: Seq<char>,
    line: nat,
) -> Seq<DiagView> {
    (if env == EnvModifier::Server {
        clean()
    } else {
        messages::db_env_diag(name, env_text(env), line)
    }) + (if method == "query_one"@ || method == "query"@ || method == "exec"@ {
        if args.len() > 0 && args[0] is Str {
            clean()
        } else {
            messages::sql_literal_diag(method, line)
        }
    } else {
        messages::db_method_diag(method, line)
    })
}

/// Whether the first argument is a text literal.
pub fn first_is_str(args: &Vec<Expr>) -> (r: bool)
    ensures
        r == (args@.len() > 0 && args@[0] is Str),
{
    if args.len() > 0 {
        match &args[0] {
            Expr::Str(_) => true,
            _ => false,
        }
    } else {
        false
    }
}

/// R15 and R23: checks a call on `db`.
pub fn check_db_method(
    method: &str,
    args: &Vec<Expr>,
    env: EnvModifier,
    name: &str,
    line: usize,
) -> (r: Report)
    ensures
        r@ == db_diags(method@, args@, env, name@, line as nat),
{
    let mut out = if env == EnvModifier::Server {
        Report::new()
    } else {
        messages::db_env(name, env_label(env), line)
    };
    let d = if same(method, "query_one") || same(method, "query") || same(method, "exec") {
        if first_is_str(args) {
            Report::new()
        } else {
            messages::sql_literal(method, line)
        }
    } else {
        messages::db_method(method, line)
    };
    out.append(d);
    out
}

/// R26: an endpoint call is server-only, a `get` or a `post`, and takes its path as a literal.
pub open spec fn endpoint_diags(
    method: Seq<char>,
    args: Seq<Expr>,
    env: EnvModifier,
    name: Seq<char>,
    line: nat,
) -> Seq<DiagView> {
    (if env == EnvModifier::Server {
        clean()
    } else {
        messages::endpoint_env_diag(name, env_text(env), line)
    }) + (if method == "get"@ || method == "post"@ {
        (if args.len() > 0 && args[0] is Str {
            clean()
        } else {
            messages::endpoint_path_diag(line)
        }) + (if method == "post"@ {
            if args.len() == 2 {
                clean()
            } else {
                messages::endpoint_arity_diag(method, "2"@, ", body"@, line)
            }
        } else if args.len() == 1 {
            clean()
        } else {
            messages::endpoint_arity_diag(method, "1"@, ""@, line)
        })
    } else {
        messages::endpoint_verb_diag(method, line)
    })
}

/// R26: checks a call on an endpoint.
pub fn check_endpoint_method(
    method: &str,
    args: &Vec<Expr>,
    env: EnvModifier,
    name: &str,
    line: usize,
) -> (r: Report)
    ensures
        r@ == endpoint_diags(method@, args@, env, name@, line as nat),
{
    let mut out = if env == EnvModifier::Server {
        Report::new()
    } else {
        messages::endpoint_env(name, env_label(env), line)
    };
    let d = if same(method, "get") || same(method, "post") {
        let mut both = if first_is_str(args) {
            Report::new()
        } else {
            messages::endpoint_path(line)
        };
        let count = if same(method, "post") {
            if args.len() == 2 {
                Report::new()
            } else {
                messages::endpoint_arity(method, "2", ", body", line)
            }
        } else if args.len() == 1 {
            Report::new()
        } else {
            messages::endpoint_arity(method, "1", "", line)
        };
        both.append(count);
        both
    } else {
        messages::endpoint_verb(method, line)
    };
    out.append(d);
    out
}

/// R27: `log` is server-only, has three methods, takes one message, and no secret.
pub open spec fn log_diags(
    method: Seq<char>,
    args: Seq<Expr>,
    env: EnvModifier,
    name: Seq<char>,
    line: nat,
    ls: Map<Seq<char>, LocalView>,
    p: XeresProgram,
) -> Seq<DiagView> {
    (if env == EnvModifier::Server {
        clean()
    } else {
        messages::log_env_diag(name, env_text(env), line)
    }) + (if !(method == "info"@ || method == "warn"@ || method == "error"@) {
        messages::log_method_diag(method, line)
    } else if args.len() != 1 {
        messages::log_arity_diag(method, line)
    } else if tainted(args[0], ls, p, Map::empty()) {
        messages::log_secret_diag(method, name, line)
    } else {
        clean()
    })
}

/// R27: checks a call on `log`.
pub fn check_log_method(
    method: &str,
    args: &Vec<Expr>,
    env: EnvModifier,
    name: &str,
    line: usize,
    ls: &Locals,
    p: &XeresProgram,
) -> (r: Report)
    ensures
        r@ == log_diags(method@, args@, env, name@, line as nat, ls@, *p),
{
    let mut out = if env == EnvModifier::Server {
        Report::new()
    } else {
        messages::log_env(name, env_label(env), line)
    };
    let none: StrMap<bool> = StrMap::new();
    let d = if !(same(method, "info") || same(method, "warn") || same(method, "error")) {
        messages::log_method(method, line)
    } else if args.len() != 1 {
        messages::log_arity(method, line)
    } else if is_tainted(&args[0], ls, p, &none) {
        messages::log_secret(method, name, line)
    } else {
        Report::new()
    };
    out.append(d);
    out
}

/// R24: `session` is server-only and has three members.
pub open spec fn session_diags(
    member: Seq<char>,
    argc: nat,
    env: EnvModifier,
    name: Seq<char>,
    line: nat,
) -> Seq<DiagView> {
    (if env == EnvModifier::Server {
        clean()
    } else {
        messages::session_env_diag(name, env_text(env), line)
    }) + (if member == "actor"@ {
        clean()
    } else if member == "login"@ {
        if argc == 1 {
            clean()
        } else {
            messages::session_arity_diag(member, "1"@, line)
        }
    } else if member == "logout"@ {
        if argc == 0 {
            clean()
        } else {
            messages::session_arity_diag(member, "0"@, line)
        }
    } else {
        messages::session_member_diag(member, line)
    })
}

/// R24: checks a use of a member of `session`.
pub fn check_session_member(
    member: &str,
    argc: usize,
    env: EnvModifier,
    name: &str,
    line: usize,
) -> (r: Report)
    ensures
        r@ == session_diags(member@, argc as nat, env, name@, line as nat),
{
    let mut out = if env == EnvModifier::Server {
        Report::new()
    } else {
        messages::session_env(name, env_label(env), line)
    };
    let d = if same(member, "actor") {
        Report::new()
    } else if same(member, "login") {
        if argc == 1 {
            Report::new()
        } else {
            messages::session_arity(member, "1", line)
        }
    } else if same(member, "logout") {
        if argc == 0 {
            Report::new()
        } else {
            messages::session_arity(member, "0", line)
        }
    } else {
        messages::session_member(member, line)
    };
    out.append(d);
    out
}

/// How many arguments a builtin String method takes, and that number as text.
pub open spec fn string_args(m: Seq<char>) -> (nat, Seq<char>) {
    if m == "contains"@ || m == "split"@ {
        (1, "1"@)
    } else if m == "replace"@ {
        (2, "2"@)
    } else {
        (0, "0"@)
    }
}

/// R21: a String method is called on a `String`, with as many arguments as it takes.
pub open spec fn string_diags(
    receiver: Expr,
    m: Seq<char>,
    argc: nat,
    ls: Map<Seq<char>, LocalView>,
    name: Seq<char>,
    line: nat,
    p: XeresProgram,
) -> Seq<DiagView> {
    (match type_of(receiver, ls, p) {
        Some(t) => if t == "String"@ {
            clean()
        } else {
            messages::string_receiver_diag(m, name, t, line)
        },
        None => clean(),
    }) + (if argc == string_args(m).0 {
        clean()
    } else {
        messages::string_arity_diag(m, string_args(m).1, line)
    })
}

/// R21: checks a call of a builtin String method.
pub fn check_string_method(
    receiver: &Expr,
    m: &str,
    argc: usize,
    ls: &Locals,
    name: &str,
    line: usize,
    p: &XeresProgram,
) -> (r: Report)
    ensures
        r@ == string_diags(*receiver, m@, argc as nat, ls@, name@, line as nat, *p),
{
    let mut out = match resolve_type(receiver, ls, p) {
        Some(t) => if same(&t, "String") {
            Report::new()
        } else {
            messages::string_receiver(m, name, &t, line)
        },
        None => Report::new(),
    };
    let want: usize = if same(m, "contains") || same(m, "split") {
        1
    } else if same(m, "replace") {
        2
    } else {
        0
    };
    let d = if argc == want {
        Report::new()
    } else {
        messages::string_arity(
            m,
            if want == 1 {
                "1"
            } else if want == 2 {
                "2"
            } else {
                "0"
            },
            line,
        )
    };
    out.append(d);
    out
}

/// How many arguments a builtin List method takes, and that number as text.
pub open spec fn list_args(m: Seq<char>) -> (nat, Seq<char>) {
    if m == "at"@ || m == "map"@ || m == "filter"@ || m == "contains"@ {
        (1, "1"@)
    } else if m == "reduce"@ {
        (2, "2"@)
    } else {
        (0, "0"@)
    }
}

/// R21: an index into a list is an `Int`.
pub open spec fn index_diags(t: Option<Seq<char>>, name: Seq<char>, line: nat) -> Seq<DiagView> {
    match t {
        Some(x) => if x == "Int"@ {
            clean()
        } else {
            messages::list_at_diag(x, name, line)
        },
        None => clean(),
    }
}

fn check_index(t: &Option<String>, name: &str, line: usize) -> (r: Report)
    ensures
        r@ == index_diags(opt_text(*t), name@, line as nat),
{
    match t {
        Some(x) => if same(x, "Int") {
            Report::new()
        } else {
            messages::list_at(x, name, line)
        },
        None => Report::new(),
    }
}

/// R21: a List method takes as many arguments as it does; an index is an `Int`.
pub open spec fn list_diags(
    m: Seq<char>,
    args: Seq<Expr>,
    ls: Map<Seq<char>, LocalView>,
    name: Seq<char>,
    line: nat,
    p: XeresProgram,
) -> Seq<DiagView> {
    if args.len() != list_args(m).0 {
        messages::list_arity_diag(m, list_args(m).1, line)
    } else if m == "at"@ {
        index_diags(type_of(args[0], ls, p), name, line)
    } else {
        clean()
    }
}

/// R21: checks a call of a builtin List method.
pub fn check_list_method(
    m: &str,
    args: &Vec<Expr>,
    ls: &Locals,
    name: &str,
    line: usize,
    p: &XeresProgram,
) -> (r: Report)
    ensures
        r@ == list_diags(m@, args@, ls@, name@, line as nat, *p),
{
    let want: usize = if same(m, "at") || same(m, "map") || same(m, "filter") || same(
        m,
        "contains",
    ) {
        1
    } else if same(m, "reduce") {
        2
    } else {
        0
    };
    if args.len() != want {
        return messages::list_arity(
            m,
            if want == 1 {
                "1"
            } else if want == 2 {
                "2"
            } else {
                "0"
            },
            line,
        );
    }
    if same(m, "at") {
        return check_index(&resolve_type(&args[0], ls, p), name, line);
    }
    Report::new()
}

/// R12: `add` and `remove` take one argument, of the right type.
pub open spec fn method_arg_diags(
    m: Seq<char>,
    coll: Seq<char>,
    args: Seq<Expr>,
    want: Seq<char>,
    ls: Map<Seq<char>, LocalView>,
    line: nat,
    p: XeresProgram,
) -> Seq<DiagView> {
    if args.len() != 1 {
        messages::collection_arity_diag(coll, m, line)
    } else {
        match type_of(args[0], ls, p) {
            Some(actual) => if fits(actual, want) {
                clean()
            } else {
                messages::collection_arg_diag(coll, m, want, actual, line)
            },
            None => clean(),
        }
    }
}

/// R12: checks the argument of a collection method.
pub fn check_method_arg(
    m: &str,
    coll: &str,
    args: &Vec<Expr>,
    want: &str,
    ls: &Locals,
    line: usize,
    p: &XeresProgram,
) -> (r: Report)
    ensures
        r@ == method_arg_diags(m@, coll@, args@, want@, ls@, line as nat, *p),
{
    if args.len() != 1 {
        return messages::collection_arity(coll, m, line);
    }
    match resolve_type(&args[0], ls, p) {
        Some(actual) => if type_compatible(&actual, want) {
            Report::new()
        } else {
            messages::collection_arg(coll, m, want, &actual, line)
        },
        None => Report::new(),
    }
}

/// R12: any other method is called on a synced collection, in the browser, and is one it has.
pub open spec fn collection_diags(
    receiver: Expr,
    m: Seq<char>,
    args: Seq<Expr>,
    ls: Map<Seq<char>, LocalView>,
    env: EnvModifier,
    name: Seq<char>,
    line: nat,
    p: XeresProgram,
) -> Seq<DiagView> {
    if receiver is Ident && collection_of(p, receiver->Ident_0@) is Some {
        let coll = receiver->Ident_0@;
        if env == EnvModifier::Server {
            messages::collection_server_diag(name, line)
        } else if m == "add"@ {
            method_arg_diags(
                m,
                coll,
                args,
                collection_of(p, coll)->0.collection_type@,
                ls,
                line,
                p,
            )
        } else if m == "remove"@ {
            method_arg_diags(m, coll, args, "String"@, ls, line, p)
        } else if m == "get"@ || m == "all"@ {
            clean()
        } else {
            messages::collection_no_method_diag(coll, m, line)
        }
    } else {
        messages::not_collection_diag(line)
    }
}

/// R12: checks a call on a synced collection.
pub fn check_collection_method(
    receiver: &Expr,
    m: &str,
    args: &Vec<Expr>,
    ls: &Locals,
    env: EnvModifier,
    name: &str,
    line: usize,
    p: &XeresProgram,
) -> (r: Report)
    ensures
        r@ == collection_diags(*receiver, m@, args@, ls@, env, name@, line as nat, *p),
{
    if let Expr::Ident(coll) = receiver {
        if let Some(c) = get_collection(p, coll) {
            if env == EnvModifier::Server {
                return messages::collection_server(name, line);
            }
            return if same(m, "add") {
                check_method_arg(m, coll, args, &c.collection_type, ls, line, p)
            } else if same(m, "remove") {
                check_method_arg(m, coll, args, "String", ls, line, p)
            } else if same(m, "get") || same(m, "all") {
                Report::new()
            } else {
                messages::collection_no_method(coll, m, line)
            };
        }
    }
    messages::not_collection(line)
}

/// Whether an expression is a capability: `db`, `session`, `log` or an endpoint.
pub open spec fn capability(e: Expr, p: XeresProgram) -> bool {
    e matches Expr::Ident(n) && (n@ == "db"@ || n@ == "session"@ || n@ == "log"@ || endpoint_of(
        p,
        n@,
    ) is Some)
}

/// Whether an expression is a capability.
pub fn is_capability(e: &Expr, p: &XeresProgram) -> (r: bool)
    ensures
        r == capability(*e, *p),
{
    match e {
        Expr::Ident(n) => same(n, "db") || same(n, "session") || same(n, "log") || get_endpoint(
            p,
            n,
        ).is_some(),
        _ => false,
    }
}

/// R9: the default of an optional is one value of its inner type.
pub open spec fn or_diags(
    inner: Seq<char>,
    args: Seq<Expr>,
    ls: Map<Seq<char>, LocalView>,
    line: nat,
    p: XeresProgram,
) -> Seq<DiagView> {
    if args.len() != 1 {
        messages::or_arity_diag(line)
    } else {
        match type_of(args[0], ls, p) {
            Some(actual) => if fits(actual, inner) {
                clean()
            } else {
                messages::or_type_diag(inner, actual, line)
            },
            None => clean(),
        }
    }
}

/// What a method call itself reports, its receiver and arguments aside.
pub open spec fn method_diags(
    receiver: Expr,
    m: Seq<char>,
    args: Seq<Expr>,
    ls: Map<Seq<char>, LocalView>,
    env: EnvModifier,
    name: Seq<char>,
    line: nat,
    p: XeresProgram,
) -> Seq<DiagView> {
    let rt = type_of(receiver, ls, p);
    if receiver is Ident && endpoint_of(p, receiver->Ident_0@) is Some {
        endpoint_diags(m, args, env, name, line)
    } else if is_ident_text(receiver, "log"@) {
        log_diags(m, args, env, name, line, ls, p)
    } else if is_ident_text(receiver, "session"@) {
        session_diags(m, args.len(), env, name, line)
    } else if is_ident_text(receiver, "db"@) {
        db_diags(m, args, env, name, line)
    } else if m == "or"@ && inner_of(rt) is Some {
        or_diags(inner_of(rt)->0, args, ls, line, p)
    } else if list_method(m) && elem_of(rt) is Some {
        list_diags(m, args, ls, name, line, p)
    } else if string_method(m) {
        string_diags(receiver, m, args.len(), ls, name, line, p)
    } else {
        collection_diags(receiver, m, args, ls, env, name, line, p)
    }
}

fn check_method(
    receiver: &Expr,
    m: &str,
    args: &Vec<Expr>,
    ls: &Locals,
    env: EnvModifier,
    name: &str,
    line: usize,
    p: &XeresProgram,
) -> (r: Report)
    ensures
        r@ == method_diags(*receiver, m@, args@, ls@, env, name@, line as nat, *p),
{
    if let Expr::Ident(n) = receiver {
        if get_endpoint(p, n).is_some() {
            return check_endpoint_method(m, args, env, name, line);
        }
    }
    if is_ident(receiver, "log") {
        return check_log_method(m, args, env, name, line, ls, p);
    }
    if is_ident(receiver, "session") {
        return check_session_member(m, args.len(), env, name, line);
    }
    if is_ident(receiver, "db") {
        return check_db_method(m, args, env, name, line);
    }
    let rt = resolve_type(receiver, ls, p);
    if same(m, "or") {
        if let Some(inner) = optional_inner(&rt) {
            if args.len() != 1 {
                return messages::or_arity(line);
            }
            return match resolve_type(&args[0], ls, p) {
                Some(actual) => if type_compatible(&actual, &inner) {
                    Report::new()
                } else {
                    messages::or_type(&inner, &actual, line)
                },
                None => Report::new(),
            };
        }
    }
    if is_list_method(m) && list_elem(&rt).is_some() {
        return check_list_method(m, args, ls, name, line, p);
    }
    if is_string_method(m) {
        return check_string_method(receiver, m, args.len(), ls, name, line, p);
    }
    check_collection_method(receiver, m, args, ls, env, name, line, p)
}

/// Whether an operator on these types is not exact money arithmetic although a Decimal is involved.
pub open spec fn mixes_decimal(op: BinOp, lt: Seq<char>, rt: Seq<char>) -> bool {
    let ld = lt == "Decimal"@;
    let rd = rt == "Decimal"@;
    (ld || rd) && match op {
        BinOp::Add => !(ld && rd) && lt != "String"@ && rt != "String"@,
        BinOp::Sub => !(ld && rd),
        BinOp::Mul => !((ld && rd) || (ld && rt == "Int"@) || (rd && lt == "Int"@)),
        BinOp::Div => true,
        BinOp::Lt | BinOp::Gt | BinOp::LtEq | BinOp::GtEq => !(ld && rd),
        BinOp::Eq | BinOp::NotEq | BinOp::And | BinOp::Or => false,
    }
}

fn is_decimal_mix(op: BinOp, lt: &str, rt: &str) -> (r: bool)
    ensures
        r == mixes_decimal(op, lt@, rt@),
{
    let ld = same(lt, "Decimal");
    let rd = same(rt, "Decimal");
    if !ld && !rd {
        return false;
    }
    match op {
        BinOp::Add => !(ld && rd) && !same(lt, "String") && !same(rt, "String"),
        BinOp::Sub => !(ld && rd),
        BinOp::Mul => !((ld && rd) || (ld && same(rt, "Int")) || (rd && same(lt, "Int"))),
        BinOp::Div => true,
        BinOp::Lt | BinOp::Gt | BinOp::LtEq | BinOp::GtEq => !(ld && rd),
        BinOp::Eq | BinOp::NotEq | BinOp::And | BinOp::Or => false,
    }
}

/// R29: Decimals are not mixed with other numbers, but for scaling by an `Int`, and not divided.
pub open spec fn decimal_diags(
    op: BinOp,
    lt: Option<Seq<char>>,
    rt: Option<Seq<char>>,
    name: Seq<char>,
    line: nat,
) -> Seq<DiagView> {
    if lt is Some && rt is Some && mixes_decimal(op, lt->0, rt->0) {
        messages::decimal_mix_diag(binop_text(op), name, lt->0, rt->0, line)
    } else {
        clean()
    }
}

/// R29: checks the types of an operator's two sides.
pub fn check_decimal_binary(
    op: BinOp,
    lt: &Option<String>,
    rt: &Option<String>,
    name: &str,
    line: usize,
) -> (r: Report)
    ensures
        r@ == decimal_diags(op, opt_text(*lt), opt_text(*rt), name@, line as nat),
{
    match (lt, rt) {
        (Some(a), Some(b)) => if is_decimal_mix(op, a, b) {
            messages::decimal_mix(binop_sym(op), name, a, b, line)
        } else {
            Report::new()
        },
        _ => Report::new(),
    }
}

/// R3: a secret field is read on the server only.
pub open spec fn secret_read_diags(
    t: Option<Seq<char>>,
    field: Seq<char>,
    env: EnvModifier,
    name: Seq<char>,
    line: nat,
    p: XeresProgram,
) -> Seq<DiagView> {
    match t {
        Some(m) => match field_prop(m, field, p) {
            Some(prop) => if prop.is_secret && env != EnvModifier::Server {
                messages::secret_read_diag(m, field, name, env_text(env), line)
            } else {
                clean()
            },
            None => clean(),
        },
        None => clean(),
    }
}

fn check_secret_read(
    t: &Option<String>,
    field: &str,
    env: EnvModifier,
    name: &str,
    line: usize,
    p: &XeresProgram,
) -> (r: Report)
    ensures
        r@ == secret_read_diags(opt_text(*t), field@, env, name@, line as nat, *p),
{
    match t {
        Some(m) => match get_field_prop(m, field, p) {
            Some(prop) => if prop.is_secret && env != EnvModifier::Server {
                messages::secret_read(m, field, name, env_label(env), line)
            } else {
                Report::new()
            },
            None => Report::new(),
        },
        None => Report::new(),
    }
}

/// R19: `hash` and `verify` are server-only, and take one and two arguments.
pub open spec fn auth_builtin_diags(
    callee: Seq<char>,
    argc: nat,
    env: EnvModifier,
    name: Seq<char>,
    line: nat,
) -> Seq<DiagView> {
    (if (callee == "hash"@ || callee == "verify"@) && env != EnvModifier::Server {
        messages::auth_builtin_env_diag(callee, name, env_text(env), line)
    } else {
        clean()
    }) + (if callee == "hash"@ && argc != 1 {
        messages::auth_builtin_arity_diag(callee, "1"@, line)
    } else if callee == "verify"@ && argc != 2 {
        messages::auth_builtin_arity_diag(callee, "2"@, line)
    } else {
        clean()
    })
}

fn check_auth_builtin(callee: &str, argc: usize, env: EnvModifier, name: &str, line: usize) -> (r:
    Report)
    ensures
        r@ == auth_builtin_diags(callee@, argc as nat, env, name@, line as nat),
{
    let mut out = if (same(callee, "hash") || same(callee, "verify")) && env
        != EnvModifier::Server {
        messages::auth_builtin_env(callee, name, env_label(env), line)
    } else {
        Report::new()
    };
    proof {
        reveal_strlit("hash");
        reveal_strlit("verify");
    }
    let d = if same(callee, "hash") && argc != 1 {
        messages::auth_builtin_arity(callee, "1", line)
    } else if same(callee, "verify") && argc != 2 {
        messages::auth_builtin_arity(callee, "2", line)
    } else {
        Report::new()
    };
    out.append(d);
    out
}

/// R14: a condition is a `Bool`.
pub open spec fn ternary_cond_diags(t: Option<Seq<char>>, name: Seq<char>, line: nat) -> Seq<
    DiagView,
> {
    match t {
        Some(x) => if x == "Bool"@ {
            clean()
        } else {
            messages::ternary_cond_diag(name, x, line)
        },
        None => clean(),
    }
}

/// R18: the branches of a conditional have one type.
pub open spec fn branch_diags(
    a: Option<Seq<char>>,
    b: Option<Seq<char>>,
    name: Seq<char>,
    line: nat,
) -> Seq<DiagView> {
    if a is Some && b is Some && !fits(a->0, b->0) && !fits(b->0, a->0) {
        messages::branches_diag(name, a->0, b->0, line)
    } else {
        clean()
    }
}

/// What an expression reports in a function of this name that runs in this environment.
pub open spec fn expr_diags(
    e: Expr,
    ls: Map<Seq<char>, LocalView>,
    env: EnvModifier,
    name: Seq<char>,
    line: nat,
    p: XeresProgram,
) -> Seq<DiagView>
    decreases e, 1int,
{
    match e {
        Expr::Int(_)
        | Expr::Float(_)
        | Expr::Str(_)
        | Expr::Bool(_)
        | Expr::Ident(_)
        | Expr::NoneLit => clean(),
        Expr::Field { base, field } => if is_ident_text(*base, "session"@) {
            session_diags(field@, 0, env, name, line)
        } else if *base is Ident && enumeration_of(p, base->Ident_0@) is Some {
            if has_variant(enumeration_of(p, base->Ident_0@)->0, field@) {
                clean()
            } else {
                messages::no_variant_diag(base->Ident_0@, field@, line)
            }
        } else {
            expr_diags(*base, ls, env, name, line, p) + secret_read_diags(
                type_of(*base, ls, p),
                field@,
                env,
                name,
                line,
                p,
            )
        },
        Expr::Call { .. } => call_diags(e, ls, env, name, line, p),
        Expr::Unary { expr, .. } => expr_diags(*expr, ls, env, name, line, p),
        Expr::Binary { op, left, right } => expr_diags(*left, ls, env, name, line, p) + expr_diags(
            *right,
            ls,
            env,
            name,
            line,
            p,
        ) + decimal_diags(op, type_of(*left, ls, p), type_of(*right, ls, p), name, line),
        Expr::Declassify(inner) => (if env == EnvModifier::Server {
            clean()
        } else {
            messages::declassify_env_diag(name, env_text(env), line)
        }) + expr_diags(*inner, ls, env, name, line, p),
        Expr::Await(inner) => expr_diags(*inner, ls, env, name, line, p),
        Expr::Raw(inner) => expr_diags(*inner, ls, env, name, line, p),
        Expr::MethodCall { receiver, method, args } => {
            let elem = elem_of(type_of(*receiver, ls, p));
            let init = if args@.len() > 0 {
                type_of(args@[0], ls, p)
            } else {
                None
            };
            (if capability(*receiver, p) {
                clean()
            } else {
                expr_diags(*receiver, ls, env, name, line, p)
            }) + args_diags(
                args@,
                args@.len() as int,
                method@,
                elem,
                init,
                ls,
                env,
                name,
                line,
                p,
            ) + method_diags(*receiver, method@, args@, ls, env, name, line, p)
        },
        Expr::ListLit(items) => exprs_diags(items@, items@.len() as int, ls, env, name, line, p),
        Expr::Ternary { cond, yes, otherwise } => expr_diags(*cond, ls, env, name, line, p)
            + ternary_cond_diags(type_of(*cond, ls, p), name, line) + expr_diags(
            *yes,
            ls,
            env,
            name,
            line,
            p,
        ) + expr_diags(*otherwise, ls, env, name, line, p) + branch_diags(
            type_of(*yes, ls, p),
            type_of(*otherwise, ls, p),
            name,
            line,
        ),
        Expr::Record { name: m, fields } => field_values_diags(
            fields@,
            fields@.len() as int,
            ls,
            env,
            name,
            line,
            p,
        ) + record_diags(m@, fields@, ls, line, p),
        Expr::Range { start, end } => expr_diags(*start, ls, env, name, line, p) + expr_diags(
            *end,
            ls,
            env,
            name,
            line,
            p,
        ),
        Expr::Index { base, index } => expr_diags(*base, ls, env, name, line, p) + expr_diags(
            *index,
            ls,
            env,
            name,
            line,
            p,
        ) + index_diags(type_of(*index, ls, p), name, line),
        Expr::Closure { params, body } => expr_diags(
            *body,
            closure_scope(ls, params@, params@.len() as int, ""@, None, None),
            env,
            name,
            line,
            p,
        ),
    }
}

/// What a call reports: navigation, the Decimal constructor, or an ordinary call.
pub open spec fn call_diags(
    e: Expr,
    ls: Map<Seq<char>, LocalView>,
    env: EnvModifier,
    name: Seq<char>,
    line: nat,
    p: XeresProgram,
) -> Seq<DiagView>
    decreases e, 0int,
{
    match e {
        Expr::Call { callee, args } => if callee@ == "navigate"@ {
            (if env == EnvModifier::Ui {
                clean()
            } else {
                messages::nav_env_diag(name, env_text(env), line)
            }) + (if args@.len() != 1 {
                messages::nav_arity_diag(line)
            } else {
                nav_diags(args@[0], "`navigate(...)`"@, name, line, ls, p)
            })
        } else if callee@ == "decimal"@ {
            (if args@.len() != 1 {
                messages::decimal_arity_diag(line)
            } else {
                match type_of(args@[0], ls, p) {
                    Some(t) => if t == "String"@ {
                        clean()
                    } else {
                        messages::decimal_arg_diag(t, line)
                    },
                    None => clean(),
                }
            }) + (if args@.len() > 0 {
                expr_diags(args@[0], ls, env, name, line, p)
            } else {
                clean()
            })
        } else {
            auth_builtin_diags(callee@, args@.len(), env, name, line) + exprs_diags(
                args@,
                args@.len() as int,
                ls,
                env,
                name,
                line,
                p,
            )
        },
        _ => clean(),
    }
}

/// What the first `n` expressions report.
pub open spec fn exprs_diags(
    es: Seq<Expr>,
    n: int,
    ls: Map<Seq<char>, LocalView>,
    env: EnvModifier,
    name: Seq<char>,
    line: nat,
    p: XeresProgram,
) -> Seq<DiagView>
    decreases es, n,
{
    if n <= 0 || n > es.len() {
        clean()
    } else {
        exprs_diags(es, n - 1, ls, env, name, line, p) + expr_diags(
            es[n - 1],
            ls,
            env,
            name,
            line,
            p,
        )
    }
}

/// What the first `n` arguments of a method call report; a closure's body is checked with its
/// parameters in scope.
pub open spec fn args_diags(
    es: Seq<Expr>,
    n: int,
    method: Seq<char>,
    elem: Option<Seq<char>>,
    init: Option<Seq<char>>,
    ls: Map<Seq<char>, LocalView>,
    env: EnvModifier,
    name: Seq<char>,
    line: nat,
    p: XeresProgram,
) -> Seq<DiagView>
    decreases es, n,
{
    if n <= 0 || n > es.len() {
        clean()
    } else {
        args_diags(es, n - 1, method, elem, init, ls, env, name, line, p) + (match es[n - 1] {
            Expr::Closure { params, body } => expr_diags(
                *body,
                closure_scope(ls, params@, params@.len() as int, method, elem, init),
                env,
                name,
                line,
                p,
            ),
            _ => expr_diags(es[n - 1], ls, env, name, line, p),
        })
    }
}

/// What the values of the first `n` fields report.
pub open spec fn field_values_diags(
    fs: Seq<(String, Expr)>,
    n: int,
    ls: Map<Seq<char>, LocalView>,
    env: EnvModifier,
    name: Seq<char>,
    line: nat,
    p: XeresProgram,
) -> Seq<DiagView>
    decreases fs, n,
{
    if n <= 0 || n > fs.len() {
        clean()
    } else {
        field_values_diags(fs, n - 1, ls, env, name, line, p) + expr_diags(
            fs[n - 1].1,
            ls,
            env,
            name,
            line,
            p,
        )
    }
}

fn check_exprs(
    es: &Vec<Expr>,
    ls: &Locals,
    env: EnvModifier,
    name: &str,
    line: usize,
    p: &XeresProgram,
) -> (r: Report)
    ensures
        r@ == exprs_diags(es@, es@.len() as int, ls@, env, name@, line as nat, *p),
    decreases es, 0int,
{
    let mut out = Report::new();
    let mut i: usize = 0;
    while i < es.len()
        invariant
            i <= es.len(),
            out@ == exprs_diags(es@, i as int, ls@, env, name@, line as nat, *p),
        decreases es.len() - i,
    {
        let d = check_expr(&es[i], ls, env, name, line, p);
        out.append(d);
        i = i + 1;
    }
    out
}

fn check_args(
    es: &Vec<Expr>,
    method: &str,
    elem: &Option<String>,
    init: &Option<String>,
    ls: &Locals,
    env: EnvModifier,
    name: &str,
    line: usize,
    p: &XeresProgram,
) -> (r: Report)
    ensures
        r@ == args_diags(
            es@,
            es@.len() as int,
            method@,
            opt_text(*elem),
            opt_text(*init),
            ls@,
            env,
            name@,
            line as nat,
            *p,
        ),
    decreases es, 0int,
{
    let mut out = Report::new();
    let mut i: usize = 0;
    while i < es.len()
        invariant
            i <= es.len(),
            out@ == args_diags(
                es@,
                i as int,
                method@,
                opt_text(*elem),
                opt_text(*init),
                ls@,
                env,
                name@,
                line as nat,
                *p,
            ),
        decreases es.len() - i,
    {
        let d = match &es[i] {
            Expr::Closure { params, body } => {
                let inner = closure_locals(ls, params, method, elem, init);
                check_expr(body, &inner, env, name, line, p)
            },
            _ => check_expr(&es[i], ls, env, name, line, p),
        };
        out.append(d);
        i = i + 1;
    }
    out
}

fn check_field_values(
    fs: &Vec<(String, Expr)>,
    ls: &Locals,
    env: EnvModifier,
    name: &str,
    line: usize,
    p: &XeresProgram,
) -> (r: Report)
    ensures
        r@ == field_values_diags(fs@, fs@.len() as int, ls@, env, name@, line as nat, *p),
    decreases fs, 0int,
{
    let mut out = Report::new();
    let mut i: usize = 0;
    while i < fs.len()
        invariant
            i <= fs.len(),
            out@ == field_values_diags(fs@, i as int, ls@, env, name@, line as nat, *p),
        decreases fs.len() - i,
    {
        let d = check_expr(&fs[i].1, ls, env, name, line, p);
        out.append(d);
        i = i + 1;
    }
    out
}

fn check_call(
    e: &Expr,
    ls: &Locals,
    env: EnvModifier,
    name: &str,
    line: usize,
    p: &XeresProgram,
) -> (r: Report)
    ensures
        r@ == call_diags(*e, ls@, env, name@, line as nat, *p),
    decreases e, 0int,
{
    match e {
        Expr::Call { callee, args } => {
            if same(callee, "navigate") {
                let mut out = if env == EnvModifier::Ui {
                    Report::new()
                } else {
                    messages::nav_env(name, env_label(env), line)
                };
                let d = if args.len() != 1 {
                    messages::nav_arity(line)
                } else {
                    check_nav_target(&args[0], "`navigate(...)`", name, line, ls, p)
                };
                out.append(d);
                return out;
            }
            if same(callee, "decimal") {
                let mut out = if args.len() != 1 {
                    messages::decimal_arity(line)
                } else {
                    match resolve_type(&args[0], ls, p) {
                        Some(t) => if same(&t, "String") {
                            Report::new()
                        } else {
                            messages::decimal_arg(&t, line)
                        },
                        None => Report::new(),
                    }
                };
                let d = if args.len() > 0 {
                    check_expr(&args[0], ls, env, name, line, p)
                } else {
                    Report::new()
                };
                out.append(d);
                return out;
            }
            let mut out = check_auth_builtin(callee, args.len(), env, name, line);
            let d = check_exprs(args, ls, env, name, line, p);
            out.append(d);
            out
        },
        _ => Report::new(),
    }
}

/// Checks an expression in a function of this name that runs in this environment.
pub fn check_expr(
    e: &Expr,
    ls: &Locals,
    env: EnvModifier,
    name: &str,
    line: usize,
    p: &XeresProgram,
) -> (r: Report)
    ensures
        r@ == expr_diags(*e, ls@, env, name@, line as nat, *p),
    decreases e, 1int,
{
    match e {
        Expr::Int(_)
        | Expr::Float(_)
        | Expr::Str(_)
        | Expr::Bool(_)
        | Expr::Ident(_)
        | Expr::NoneLit => Report::new(),
        Expr::Field { base, field } => {
            if is_ident(base, "session") {
                return check_session_member(field, 0, env, name, line);
            }
            if let Expr::Ident(n) = &**base {
                if let Some(en) = get_enumeration(p, n) {
                    return if variant_declared(en, field) {
                        Report::new()
                    } else {
                        messages::no_variant(n, field, line)
                    };
                }
            }
            let mut out = check_expr(base, ls, env, name, line, p);
            let t = resolve_type(base, ls, p);
            out.append(check_secret_read(&t, field, env, name, line, p));
            out
        },
        Expr::Call { .. } => check_call(e, ls, env, name, line, p),
        Expr::Unary { expr, .. } => check_expr(expr, ls, env, name, line, p),
        Expr::Binary { op, left, right } => {
            let mut out = check_expr(left, ls, env, name, line, p);
            let d = check_expr(right, ls, env, name, line, p);
            out.append(d);
            let lt = resolve_type(left, ls, p);
            let rt = resolve_type(right, ls, p);
            out.append(check_decimal_binary(*op, &lt, &rt, name, line));
            out
        },
        Expr::Declassify(inner) => {
            let mut out = if env == EnvModifier::Server {
                Report::new()
            } else {
                messages::declassify_env(name, env_label(env), line)
            };
            let d = check_expr(inner, ls, env, name, line, p);
            out.append(d);
            out
        },
        Expr::Await(inner) => check_expr(inner, ls, env, name, line, p),
        Expr::Raw(inner) => check_expr(inner, ls, env, name, line, p),
        Expr::MethodCall { receiver, method, args } => {
            let elem = list_elem(&resolve_type(receiver, ls, p));
            let init = if args.len() > 0 {
                resolve_type(&args[0], ls, p)
            } else {
                None
            };
            let mut out = if is_capability(receiver, p) {
                Report::new()
            } else {
                check_expr(receiver, ls, env, name, line, p)
            };
            let d = check_args(args, method, &elem, &init, ls, env, name, line, p);
            out.append(d);
            out.append(check_method(receiver, method, args, ls, env, name, line, p));
            out
        },
        Expr::ListLit(items) => check_exprs(items, ls, env, name, line, p),
        Expr::Ternary { cond, yes, otherwise } => {
            let mut out = check_expr(cond, ls, env, name, line, p);
            let ct = match resolve_type(cond, ls, p) {
                Some(t) => if same(&t, "Bool") {
                    Report::new()
                } else {
                    messages::ternary_cond(name, &t, line)
                },
                None => Report::new(),
            };
            out.append(ct);
            let y = check_expr(yes, ls, env, name, line, p);
            out.append(y);
            let o = check_expr(otherwise, ls, env, name, line, p);
            out.append(o);
            let b = match (resolve_type(yes, ls, p), resolve_type(otherwise, ls, p)) {
                (Some(x), Some(z)) => if !type_compatible(&x, &z) && !type_compatible(&z, &x) {
                    messages::branches(name, &x, &z, line)
                } else {
                    Report::new()
                },
                _ => Report::new(),
            };
            out.append(b);
            out
        },
        Expr::Record { name: m, fields } => {
            let mut out = check_field_values(fields, ls, env, name, line, p);
            out.append(check_record(m, fields, ls, line, p));
            out
        },
        Expr::Range { start, end } => {
            let mut out = check_expr(start, ls, env, name, line, p);
            let d = check_expr(end, ls, env, name, line, p);
            out.append(d);
            out
        },
        Expr::Index { base, index } => {
            let mut out = check_expr(base, ls, env, name, line, p);
            let d = check_expr(index, ls, env, name, line, p);
            out.append(d);
            let it = resolve_type(index, ls, p);
            out.append(check_index(&it, name, line));
            out
        },
        Expr::Closure { params, body } => {
            let inner = closure_locals(ls, params, "", &None, &None);
            check_expr(body, &inner, env, name, line, p)
        },
    }
}

} // verus!
