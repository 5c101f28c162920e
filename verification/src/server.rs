//! The server tier: models with their secret-stripping wire codec, server functions with their
//! remote-call entries, the inbound API, and the request loop around them.
use vstd::prelude::*;
use vstd::string::*;

use crate::ast::{
    ApiNode, ApiRoute, EndpointNode, EnumNode, EnvModifier, FunctionNode, ModelNode, Param,
    PropertyNode, ScreenNode, XeresProgram,
};
use crate::client::{
    default_screen, endpoint_names, endpoint_parts, first_navigable, is_navigable, param_names,
    param_parts, path_of, path_text,
};
use crate::decode::{
    arg_extractor, arg_extractor_text, decodable, decode_json_rust, decode_text, is_decodable,
    wire_serialize, wire_text,
};
use crate::emit_stmt::{decoders_end_in, emit_server_stmts, server_stmts_text, stmts_decode};
use crate::num::{nat_text, usize_text};
use crate::order::{dedup_parts, sort_parts, sorted_texts, without_repeats};
use crate::runtime::{
    CRYPTO_PRELUDE, DB_PRELUDE, DECIMAL_PRELUDE, HTTP_PRELUDE, SECURITY_HEADERS, SERVER_HEAD,
    SERVER_MAIN, SESSION_PRELUDE, SYNC_SERVER,
};
use crate::scan::{replace_all, replace_from};
use crate::text::{
    cat10, cat12, cat14, cat2, cat3, cat4, cat5, cat6, cat7, cat8, cat9, join_text, Parts,
};
use crate::types::{generic_inner, generic_inner_spec, map_rust_type, rust_type};
use crate::unicode::{debug_text, lower_text, lowercase, quoted, upper_text, uppercase};
use crate::uses::{
    functions_use_spec, uses_auth, uses_db, uses_decimal, uses_decimal_spec, uses_session, Feature,
};

verus! {

/// A text and a line end where a condition holds, nothing where it does not.
pub open spec fn prelude_text(cond: bool, t: Seq<char>) -> Seq<char> {
    if cond {
        t + "\n"@
    } else {
        ""@
    }
}

fn prelude(cond: bool, t: &str) -> (r: String)
    ensures
        r@ == prelude_text(cond, t@),
{
    if cond {
        cat2(t, "\n")
    } else {
        "".to_owned()
    }
}

/// How a generated server reads an endpoint's bearer token: from the environment variable of its
/// first secret, or not at all.
pub open spec fn bearer_text(ep: EndpointNode) -> Seq<char> {
    if ep.secrets@.len() > 0 {
        "std::env::var(\""@ + upper_text(ep.name@) + "_"@ + upper_text(ep.secrets@[0].0@)
            + "\").unwrap_or_default()"@
    } else {
        "String::new()"@
    }
}

/// The host constants and bearer loaders of the first `n` endpoints.
pub open spec fn endpoints_text(eps: Seq<EndpointNode>, n: int) -> Seq<char>
    decreases n,
{
    if n <= 0 || n > eps.len() {
        Seq::empty()
    } else {
        endpoints_text(eps, n - 1) + "const __EP_"@ + upper_text(eps[n - 1].name@)
            + "_BASE: &str = \""@ + eps[n - 1].base@ + "\";\nfn __ep_"@ + lower_text(
            eps[n - 1].name@,
        ) + "_bearer() -> String { "@ + bearer_text(eps[n - 1]) + " }\n"@
    }
}

fn emit_endpoints(eps: &Vec<EndpointNode>) -> (r: String)
    ensures
        r@ == endpoints_text(eps@, eps@.len() as int),
{
    let mut out: String = String::new();
    let mut i: usize = 0;
    while i < eps.len()
        invariant
            i <= eps.len(),
            out@ == endpoints_text(eps@, i as int),
        decreases eps.len() - i,
    {
        let ep = &eps[i];
        let up = uppercase(&ep.name);
        let bearer = if ep.secrets.len() > 0 {
            cat5(
                "std::env::var(\"",
                &up,
                "_",
                &uppercase(&ep.secrets[0].0),
                "\").unwrap_or_default()",
            )
        } else {
            "String::new()".to_owned()
        };
        out = cat10(
            &out,
            "const __EP_",
            &up,
            "_BASE: &str = \"",
            &ep.base,
            "\";\nfn __ep_",
            &lowercase(&ep.name),
            "_bearer() -> String { ",
            &bearer,
            " }\n",
        );
        i = i + 1;
    }
    out
}

/// The first `n` variants, as comments.
pub open spec fn variant_comments(vs: Seq<String>, n: int) -> Seq<Seq<char>>
    decreases n,
{
    if n <= 0 || n > vs.len() {
        Seq::empty()
    } else {
        variant_comments(vs, n - 1).push("// "@ + vs[n - 1]@)
    }
}

/// The first `n` enums. An enum is string-backed: a value is its variant's name.
pub open spec fn rust_enums_text(es: Seq<EnumNode>, n: int) -> Seq<char>
    decreases n,
{
    if n <= 0 || n > es.len() {
        Seq::empty()
    } else {
        rust_enums_text(es, n - 1) + "pub type "@ + es[n - 1].name@ + " = String;  "@ + join_text(
            variant_comments(es[n - 1].variants@, es[n - 1].variants@.len() as int),
            " "@,
        ) + "\n"@
    }
}

fn emit_rust_enums(es: &Vec<EnumNode>) -> (r: String)
    ensures
        r@ == rust_enums_text(es@, es@.len() as int),
{
    let mut out: String = String::new();
    let mut i: usize = 0;
    while i < es.len()
        invariant
            i <= es.len(),
            out@ == rust_enums_text(es@, i as int),
        decreases es.len() - i,
    {
        let vs = &es[i].variants;
        let mut items = Parts::new();
        let mut j: usize = 0;
        while j < vs.len()
            invariant
                j <= vs.len(),
                items@ == variant_comments(vs@, j as int),
            decreases vs.len() - j,
        {
            items.push(cat2("// ", &vs[j]));
            j = j + 1;
        }
        out = cat6(&out, "pub type ", &es[i].name, " = String;  ", &items.join(" "), "\n");
        i = i + 1;
    }
    out
}

/// The first `n` fields of a model's struct. The server holds secrets too.
pub open spec fn rust_fields_text(ps: Seq<PropertyNode>, n: int) -> Seq<char>
    decreases n,
{
    if n <= 0 || n > ps.len() {
        Seq::empty()
    } else {
        rust_fields_text(ps, n - 1) + "    pub "@ + ps[n - 1].name@ + ": "@ + rust_type(
            ps[n - 1].data_type@,
        ) + ","@ + (if ps[n - 1].is_secret {
            "  // secret — never leaves the server"@
        } else {
            ""@
        }) + "\n"@
    }
}

/// Whether one of the first `n` fields is not secret.
pub open spec fn any_public(ps: Seq<PropertyNode>, n: int) -> bool
    decreases n,
{
    n > 0 && n <= ps.len() && (!ps[n - 1].is_secret || any_public(ps, n - 1))
}

/// How the wire codec writes the first `n` fields. A secret field leaves a comment only.
pub open spec fn codec_fields_text(ps: Seq<PropertyNode>, n: int, models: Seq<ModelNode>) -> Seq<
    char,
>
    decreases n,
{
    if n <= 0 || n > ps.len() {
        Seq::empty()
    } else if ps[n - 1].is_secret {
        codec_fields_text(ps, n - 1, models) + "        // "@ + ps[n - 1].name@
            + " is secret — not serialized\n"@
    } else {
        codec_fields_text(ps, n - 1, models) + (if any_public(ps, n - 1) {
            "        s.push(',');\n"@
        } else {
            ""@
        }) + "        s.push_str(\"\\\""@ + ps[n - 1].name@ + "\\\":\");\n        s.push_str(&"@
            + wire_text("self."@ + ps[n - 1].name@, ps[n - 1].data_type@, models) + ");\n"@
    }
}

/// The first `n` models: a struct with every field, and a wire codec without the secret ones.
pub open spec fn rust_models_text(ms: Seq<ModelNode>, n: int) -> Seq<char>
    decreases n,
{
    if n <= 0 || n > ms.len() {
        Seq::empty()
    } else {
        let ps = ms[n - 1].properties@;
        rust_models_text(ms, n - 1)
            + "#[derive(Debug, Clone, Default, PartialEq)]\npub struct "@ + ms[n - 1].name@
            + " {\n"@ + rust_fields_text(ps, ps.len() as int) + "}\n\nimpl "@ + ms[n - 1].name@
            + " {\n    /// Serialize for the wire. `secret` fields are omitted by construction.\n    pub fn to_wire_json(&self) -> String {\n        let mut s = String::from(\"{\");\n"@
            + codec_fields_text(ps, ps.len() as int, ms)
            + "        s.push('}');\n        s\n    }\n}\n\n"@
    }
}

fn emit_rust_fields(ps: &Vec<PropertyNode>) -> (r: String)
    ensures
        r@ == rust_fields_text(ps@, ps@.len() as int),
{
    let mut out: String = String::new();
    let mut i: usize = 0;
    while i < ps.len()
        invariant
            i <= ps.len(),
            out@ == rust_fields_text(ps@, i as int),
        decreases ps.len() - i,
    {
        let note = if ps[i].is_secret {
            "  // secret — never leaves the server"
        } else {
            ""
        };
        out = cat8(
            &out,
            "    pub ",
            &ps[i].name,
            ": ",
            &map_rust_type(&ps[i].data_type),
            ",",
            note,
            "\n",
        );
        i = i + 1;
    }
    out
}

fn emit_codec_fields(ps: &Vec<PropertyNode>, models: &Vec<ModelNode>) -> (r: String)
    ensures
        r@ == codec_fields_text(ps@, ps@.len() as int, models@),
{
    let mut out: String = String::new();
    let mut open = false;
    let mut i: usize = 0;
    while i < ps.len()
        invariant
            i <= ps.len(),
            open == any_public(ps@, i as int),
            out@ == codec_fields_text(ps@, i as int, models@),
        decreases ps.len() - i,
    {
        if ps[i].is_secret {
            out = cat4(&out, "        // ", &ps[i].name, " is secret — not serialized\n");
        } else {
            let w = wire_serialize(&cat2("self.", &ps[i].name), &ps[i].data_type, models);
            out = cat7(
                &out,
                if open {
                    "        s.push(',');\n"
                } else {
                    ""
                },
                "        s.push_str(\"\\\"",
                &ps[i].name,
                "\\\":\");\n        s.push_str(&",
                &w,
                ");\n",
            );
            open = true;
        }
        i = i + 1;
    }
    out
}

fn emit_rust_models(ms: &Vec<ModelNode>) -> (r: String)
    ensures
        r@ == rust_models_text(ms@, ms@.len() as int),
{
    let mut out: String = String::new();
    let mut i: usize = 0;
    while i < ms.len()
        invariant
            i <= ms.len(),
            out@ == rust_models_text(ms@, i as int),
        decreases ms.len() - i,
    {
        let m = &ms[i];
        out = cat10(
            &out,
            "#[derive(Debug, Clone, Default, PartialEq)]\npub struct ",
            &m.name,
            " {\n",
            &emit_rust_fields(&m.properties),
            "}\n\nimpl ",
            &m.name,
            " {\n    /// Serialize for the wire. `secret` fields are omitted by construction.\n    pub fn to_wire_json(&self) -> String {\n        let mut s = String::from(\"{\");\n",
            &emit_codec_fields(&m.properties, ms),
            "        s.push('}');\n        s\n    }\n}\n\n",
        );
        i = i + 1;
    }
    out
}

/// The first `n` parameters as Rust declarations.
pub open spec fn rust_params(ps: Seq<Param>, n: int) -> Seq<Seq<char>>
    decreases n,
{
    if n <= 0 || n > ps.len() {
        Seq::empty()
    } else {
        rust_params(ps, n - 1).push(ps[n - 1].name@ + ": "@ + rust_type(ps[n - 1].ty@))
    }
}

/// A Rust parameter list.
pub open spec fn rust_params_text(ps: Seq<Param>) -> Seq<char> {
    join_text(rust_params(ps, ps.len() as int), ", "@)
}

fn emit_rust_params(ps: &Vec<Param>) -> (r: String)
    ensures
        r@ == rust_params_text(ps@),
{
    let mut out = Parts::new();
    let mut i: usize = 0;
    while i < ps.len()
        invariant
            i <= ps.len(),
            out@ == rust_params(ps@, i as int),
        decreases ps.len() - i,
    {
        out.push(cat3(&ps[i].name, ": ", &map_rust_type(&ps[i].ty)));
        i = i + 1;
    }
    out.join(", ")
}

/// The return type of a Rust function, with its arrow; nothing for a function that returns nothing.
pub open spec fn rust_return_text(ret: Option<String>) -> Seq<char> {
    match ret {
        Some(t) => " -> "@ + rust_type(t@),
        None => ""@,
    }
}

fn emit_rust_return(ret: &Option<String>) -> (r: String)
    ensures
        r@ == rust_return_text(*ret),
{
    match ret {
        Some(t) => cat2(" -> ", &map_rust_type(t)),
        None => "".to_owned(),
    }
}

/// The statements, each indented and on a line of its own.
pub open spec fn lines_text(ss: Seq<Seq<char>>) -> Seq<char>
    decreases ss.len(),
{
    if ss.len() == 0 {
        Seq::empty()
    } else {
        lines_text(ss.drop_last()) + "    "@ + ss.last() + "\n"@
    }
}

fn emit_lines(ss: &Parts) -> (r: String)
    ensures
        r@ == lines_text(ss@),
{
    let n: usize = ss.len();
    let mut out: String = String::new();
    let mut i: usize = 0;
    while i < n
        invariant
            i <= n,
            n == ss@.len(),
            out@ == lines_text(ss@.take(i as int)),
        decreases n - i,
    {
        proof {
            assert(ss@.take(i + 1).drop_last() =~= ss@.take(i as int));
        }
        out = cat4(&out, "    ", ss.get(i), "\n");
        i = i + 1;
    }
    proof {
        assert(ss@.take(n as int) =~= ss@);
    }
    out
}

/// A function on the server tier, with its remote-call entry: the response goes through the wire
/// codec, so secret fields cannot be in it. A `ui` function leaves a comment only.
pub open spec fn rust_function_text(f: FunctionNode, p: XeresProgram) -> Seq<char> {
    if f.env == EnvModifier::Ui {
        "// `"@ + f.name@ + "` runs in the browser — see client.ts\n\n"@
    } else {
        let eps = endpoint_names(p.endpoints@);
        let params = rust_params_text(f.params@);
        "pub fn "@ + f.name@ + "("@ + params + ")"@ + rust_return_text(f.return_type) + " {\n"@
            + lines_text(
            server_stmts_text(
                f.body@,
                f.body@.len() as int,
                f.return_type,
                p.models@,
                p.enums@,
                eps,
            ),
        ) + "}\n\n/// RPC entry for `"@ + f.name@
            + "` — response goes through the wire projection.\npub fn "@ + f.name@ + "_rpc("@
            + params + ") -> String {\n    let __r = "@ + f.name@ + "("@ + join_text(
            param_names(f.params@),
            ", "@,
        ) + ");\n    "@ + (match f.return_type {
            Some(t) => wire_text("__r"@, t@, p.models@),
            None => "String::from(\"null\")"@,
        }) + "\n}\n\n"@
    }
}

/// The first `n` functions on the server tier.
pub open spec fn rust_functions_text(p: XeresProgram, n: int) -> Seq<char>
    decreases n,
{
    if n <= 0 || n > p.functions@.len() {
        Seq::empty()
    } else {
        rust_functions_text(p, n - 1) + rust_function_text(p.functions@[n - 1], p)
    }
}

/// Whether the server decodes a value into `t` for a function: an argument of a remote call, or an
/// endpoint's response in its body.
pub open spec fn function_decodes(f: FunctionNode, p: XeresProgram, t: Seq<char>) -> bool {
    ||| f.env == EnvModifier::Server && exists|k: int|
        0 <= k < f.params@.len() && (#[trigger] f.params@[k]).ty@ == t
    ||| f.env != EnvModifier::Ui && stmts_decode(
        f.body@,
        f.return_type,
        p.models@,
        endpoint_names(p.endpoints@),
        t,
    )
}

/// Whether the server decodes a value into `t` for an inbound route: its body, or an endpoint's response
/// in the code behind it.
pub open spec fn route_decodes(r: ApiRoute, p: XeresProgram, t: Seq<char>) -> bool {
    ||| r.body is Some && r.body->0.ty@ == t
    ||| stmts_decode(
        r.body_stmts@,
        r.return_type,
        p.models@,
        endpoint_names(p.endpoints@),
        t,
    )
}

/// Whether the server decodes a value into `t` for an inbound API.
pub open spec fn api_decodes(a: ApiNode, p: XeresProgram, t: Seq<char>) -> bool {
    exists|j: int| 0 <= j < a.routes@.len() && route_decodes(#[trigger] a.routes@[j], p, t)
}

/// The types that the server of a program decodes values into.
pub open spec fn decoded_types(p: XeresProgram) -> Set<Seq<char>> {
    Set::new(
        |t: Seq<char>|
            (exists|i: int|
                0 <= i < p.functions@.len() && function_decodes(#[trigger] p.functions@[i], p, t))
                || exists|i: int|
                0 <= i < p.apis@.len() && api_decodes(#[trigger] p.apis@[i], p, t),
    )
}

/// Whether every decoder of a program's server comes to an end: no model that a value is decoded into
/// nests itself, directly or through others.
pub open spec fn decoders_end(p: XeresProgram) -> bool {
    forall|t: Seq<char>|
        decoded_types(p).contains(t) ==> #[trigger] decodable(p.models@, t, p.models@.len())
}

/// Whether the decoders of a function come to an end.
pub open spec fn function_ends(f: FunctionNode, p: XeresProgram) -> bool {
    forall|t: Seq<char>|
        function_decodes(f, p, t) ==> #[trigger] decodable(p.models@, t, p.models@.len())
}

/// Whether the decoders of an inbound route come to an end.
pub open spec fn route_ends(r: ApiRoute, p: XeresProgram) -> bool {
    forall|t: Seq<char>|
        route_decodes(r, p, t) ==> #[trigger] decodable(p.models@, t, p.models@.len())
}

/// Whether the decoders of an inbound API come to an end.
pub open spec fn api_ends(a: ApiNode, p: XeresProgram) -> bool {
    forall|t: Seq<char>|
        api_decodes(a, p, t) ==> #[trigger] decodable(p.models@, t, p.models@.len())
}

/// Whether the decoders of all inbound APIs come to an end.
pub open spec fn apis_end(p: XeresProgram) -> bool {
    forall|i: int| 0 <= i < p.apis@.len() ==> api_ends(#[trigger] p.apis@[i], p)
}

proof fn lemma_decoders_end(p: XeresProgram)
    ensures
        decoders_end(p) <==> (forall|i: int|
            0 <= i < p.functions@.len() ==> function_ends(#[trigger] p.functions@[i], p))
            && apis_end(p),
{
    if decoders_end(p) {
        assert forall|i: int| 0 <= i < p.functions@.len() implies function_ends(
            #[trigger] p.functions@[i],
            p,
        ) by {
            assert forall|t: Seq<char>| function_decodes(
                p.functions@[i],
                p,
                t,
            ) implies #[trigger] decodable(p.models@, t, p.models@.len()) by {
                assert(decoded_types(p).contains(t));
            }
        }
        assert forall|i: int| 0 <= i < p.apis@.len() implies api_ends(#[trigger] p.apis@[i], p) by {
            assert forall|t: Seq<char>| api_decodes(p.apis@[i], p, t) implies #[trigger] decodable(
                p.models@,
                t,
                p.models@.len(),
            ) by {
                assert(decoded_types(p).contains(t));
            }
        }
    }
}

fn function_decoders_end(f: &FunctionNode, p: &XeresProgram, eps: &Parts) -> (r: bool)
    requires
        eps@ == endpoint_names(p.endpoints@),
    ensures
        r == function_ends(*f, *p),
{
    if f.env == EnvModifier::Server {
        let mut k: usize = 0;
        while k < f.params.len()
            invariant
                k <= f.params.len(),
                f.env == EnvModifier::Server,
                forall|j: int|
                    0 <= j < k ==> decodable(
                        p.models@,
                        (#[trigger] f.params@[j]).ty@,
                        p.models@.len(),
                    ),
            decreases f.params.len() - k,
        {
            if !is_decodable(&p.models, &f.params[k].ty, p.models.len()) {
                proof {
                    assert(function_decodes(*f, *p, f.params@[k as int].ty@));
                }
                return false;
            }
            k = k + 1;
        }
    }
    f.env == EnvModifier::Ui || decoders_end_in(&f.body, &f.return_type, &p.models, eps)
}

fn route_decoders_end(a: &ApiRoute, p: &XeresProgram, eps: &Parts) -> (r: bool)
    requires
        eps@ == endpoint_names(p.endpoints@),
    ensures
        r == route_ends(*a, *p),
{
    if let Some(b) = &a.body {
        if !is_decodable(&p.models, &b.ty, p.models.len()) {
            proof {
                assert(route_decodes(*a, *p, b.ty@));
            }
            return false;
        }
    }
    decoders_end_in(&a.body_stmts, &a.return_type, &p.models, eps)
}

fn api_decoders_end(a: &ApiNode, p: &XeresProgram, eps: &Parts) -> (r: bool)
    requires
        eps@ == endpoint_names(p.endpoints@),
    ensures
        r == api_ends(*a, *p),
{
    let mut j: usize = 0;
    while j < a.routes.len()
        invariant
            j <= a.routes.len(),
            eps@ == endpoint_names(p.endpoints@),
            forall|k: int| 0 <= k < j ==> route_ends(#[trigger] a.routes@[k], *p),
        decreases a.routes.len() - j,
    {
        if !route_decoders_end(&a.routes[j], p, eps) {
            proof {
                assert(!route_ends(a.routes@[j as int], *p));
            }
            return false;
        }
        j = j + 1;
    }
    true
}

/// Whether every decoder of a program's server comes to an end.
pub fn server_decoders_end(p: &XeresProgram) -> (r: bool)
    ensures
        r == decoders_end(*p),
{
    let eps = endpoint_parts(&p.endpoints);
    proof {
        lemma_decoders_end(*p);
    }
    let mut i: usize = 0;
    while i < p.functions.len()
        invariant
            i <= p.functions.len(),
            eps@ == endpoint_names(p.endpoints@),
            forall|k: int| 0 <= k < i ==> function_ends(#[trigger] p.functions@[k], *p),
        decreases p.functions.len() - i,
    {
        if !function_decoders_end(&p.functions[i], p, &eps) {
            proof {
                lemma_decoders_end(*p);
                assert(!function_ends(p.functions@[i as int], *p));
            }
            return false;
        }
        i = i + 1;
    }
    let mut j: usize = 0;
    while j < p.apis.len()
        invariant
            j <= p.apis.len(),
            eps@ == endpoint_names(p.endpoints@),
            forall|k: int| 0 <= k < j ==> api_ends(#[trigger] p.apis@[k], *p),
        decreases p.apis.len() - j,
    {
        if !api_decoders_end(&p.apis[j], p, &eps) {
            proof {
                lemma_decoders_end(*p);
                assert(!api_ends(p.apis@[j as int], *p));
            }
            return false;
        }
        j = j + 1;
    }
    true
}

fn emit_rust_function(f: &FunctionNode, p: &XeresProgram, eps: &Parts) -> (r: String)
    requires
        function_ends(*f, *p),
        eps@ == endpoint_names(p.endpoints@),
    ensures
        r@ == rust_function_text(*f, *p),
{
    if f.env == EnvModifier::Ui {
        return cat3("// `", &f.name, "` runs in the browser — see client.ts\n\n");
    }
    let params = emit_rust_params(&f.params);
    let body = emit_server_stmts(&f.body, &f.return_type, &p.models, &p.enums, eps);
    let head = cat8(
        "pub fn ",
        &f.name,
        "(",
        &params,
        ")",
        &emit_rust_return(&f.return_type),
        " {\n",
        &emit_lines(&body),
    );
    let wire = match &f.return_type {
        Some(t) => wire_serialize("__r", t, &p.models),
        None => "String::from(\"null\")".to_owned(),
    };
    cat14(
        &head,
        "}\n\n/// RPC entry for `",
        &f.name,
        "` — response goes through the wire projection.\npub fn ",
        &f.name,
        "_rpc(",
        &params,
        ") -> String {\n    let __r = ",
        &f.name,
        "(",
        &param_parts(&f.params).join(", "),
        ");\n    ",
        &wire,
        "\n}\n\n",
    )
}

fn emit_rust_functions(p: &XeresProgram, eps: &Parts) -> (r: String)
    requires
        forall|k: int| 0 <= k < p.functions@.len() ==> function_ends(#[trigger] p.functions@[k], *p),
        eps@ == endpoint_names(p.endpoints@),
    ensures
        r@ == rust_functions_text(*p, p.functions@.len() as int),
{
    let mut out: String = String::new();
    let mut i: usize = 0;
    while i < p.functions.len()
        invariant
            i <= p.functions.len(),
            forall|k: int| 0 <= k < p.functions@.len() ==> function_ends(#[trigger] p.functions@[k], *p),
            eps@ == endpoint_names(p.endpoints@),
            out@ == rust_functions_text(*p, i as int),
        decreases p.functions.len() - i,
    {
        out = cat2(&out, &emit_rust_function(&p.functions[i], p, eps));
        i = i + 1;
    }
    out
}

/// The name of the handler of route `ri` of API `ai`.
pub open spec fn api_handler_text(ai: nat, ri: nat) -> Seq<char> {
    "__api_"@ + nat_text(ai) + "_"@ + nat_text(ri)
}

fn api_handler(ai: usize, ri: usize) -> (r: String)
    ensures
        r@ == api_handler_text(ai as nat, ri as nat),
{
    cat4("__api_", &usize_text(ai), "_", &usize_text(ri))
}

/// The handler function of one route.
pub open spec fn route_handler_text(ai: nat, ri: nat, route: ApiRoute, p: XeresProgram) -> Seq<
    char,
> {
    "pub fn "@ + api_handler_text(ai, ri) + "("@ + (match route.body {
        Some(b) => b.name@ + ": "@ + rust_type(b.ty@),
        None => ""@,
    }) + ")"@ + rust_return_text(route.return_type) + " {\n"@ + lines_text(
        server_stmts_text(
            route.body_stmts@,
            route.body_stmts@.len() as int,
            route.return_type,
            p.models@,
            p.enums@,
            endpoint_names(p.endpoints@),
        ),
    ) + "}\n\n"@
}

/// The handler functions of the first `n` routes of API `ai`.
pub open spec fn route_handlers_text(ai: nat, routes: Seq<ApiRoute>, n: int, p: XeresProgram) -> Seq<
    char,
>
    decreases n,
{
    if n <= 0 || n > routes.len() {
        Seq::empty()
    } else {
        route_handlers_text(ai, routes, n - 1, p) + route_handler_text(
            ai,
            (n - 1) as nat,
            routes[n - 1],
            p,
        )
    }
}

/// The handler functions of the first `n` APIs.
pub open spec fn api_handlers_text(p: XeresProgram, n: int) -> Seq<char>
    decreases n,
{
    if n <= 0 || n > p.apis@.len() {
        Seq::empty()
    } else {
        api_handlers_text(p, n - 1) + route_handlers_text(
            (n - 1) as nat,
            p.apis@[n - 1].routes@,
            p.apis@[n - 1].routes@.len() as int,
            p,
        )
    }
}

/// What a route answers. An absent optional is a 404; any other result is a 200 with its wire form.
pub open spec fn respond_text(call: Seq<char>, ret: Option<String>, models: Seq<ModelNode>) -> Seq<
    char,
> {
    match ret {
        Some(t) => match generic_inner_spec("Optional"@, t@) {
            Some(inner) => "match "@ + call + " { Some(__v) => Some((200, "@ + wire_text(
                "__v"@,
                inner,
                models,
            ) + ")), None => Some((404, String::new())) }"@,
            None => "let __r = "@ + call + "; Some((200, "@ + wire_text("__r"@, t@, models)
                + "))"@,
        },
        None => call + "; Some((200, String::from(\"null\")))"@,
    }
}

/// The dispatch arm of one route: decode the body, run the handler, answer.
pub open spec fn route_arm_text(
    ai: nat,
    ri: nat,
    base: Seq<char>,
    route: ApiRoute,
    p: XeresProgram,
) -> Seq<char> {
    let h = api_handler_text(ai, ri);
    "        (\""@ + route.method@ + "\", \""@ + base + route.path@ + "\") => { "@ + (
    match route.body {
        Some(b) => "let __b = jparse(body); let __arg = "@ + decode_text(
            "Some(&__b)"@,
            b.ty@,
            p.models@,
            p.enums@,
            0,
            p.models@.len(),
        ) + "; "@,
        None => ""@,
    }) + respond_text(
        (if route.body is Some {
            h + "(__arg)"@
        } else {
            h + "()"@
        }),
        route.return_type,
        p.models@,
    ) + " }\n"@
}

/// The dispatch arms of the first `n` routes of API `ai`.
pub open spec fn route_arms_text(
    ai: nat,
    base: Seq<char>,
    routes: Seq<ApiRoute>,
    n: int,
    p: XeresProgram,
) -> Seq<char>
    decreases n,
{
    if n <= 0 || n > routes.len() {
        Seq::empty()
    } else {
        route_arms_text(ai, base, routes, n - 1, p) + route_arm_text(
            ai,
            (n - 1) as nat,
            base,
            routes[n - 1],
            p,
        )
    }
}

/// The dispatch arms of the first `n` APIs.
pub open spec fn api_arms_text(p: XeresProgram, n: int) -> Seq<char>
    decreases n,
{
    if n <= 0 || n > p.apis@.len() {
        Seq::empty()
    } else {
        api_arms_text(p, n - 1) + route_arms_text(
            (n - 1) as nat,
            p.apis@[n - 1].base@,
            p.apis@[n - 1].routes@,
            p.apis@[n - 1].routes@.len() as int,
            p,
        )
    }
}

/// The base paths of the APIs.
pub open spec fn api_bases(apis: Seq<ApiNode>) -> Seq<Seq<char>> {
    Seq::new(apis.len(), |i: int| apis[i].base@)
}

/// The tests for a path under one of the bases.
pub open spec fn base_tests(bases: Seq<Seq<char>>) -> Seq<Seq<char>> {
    Seq::new(bases.len(), |i: int| "path.starts_with(\""@ + bases[i] + "\")"@)
}

/// The inbound API: one handler per route, and the dispatcher over them. A path under a declared
/// base that no route matches is a 404 of its own.
pub open spec fn api_text(p: XeresProgram) -> Seq<char> {
    let bases = api_bases(p.apis@);
    api_handlers_text(p, p.apis@.len() as int)
        + "fn api_dispatch(method: &str, path: &str, body: &str) -> Option<(u16, String)> {\n    let _ = body;\n    let __hit = match (method, path) {\n"@
        + api_arms_text(p, p.apis@.len() as int)
        + "        _ => None,\n    };\n    if __hit.is_some() { return __hit; }\n    if "@
        + join_text(
        base_tests(without_repeats(sorted_texts(bases, bases.len() as int))),
        " || "@,
    )
        + " {\n        return Some((404, String::from(\"{\\\"error\\\":\\\"not found\\\"}\")));\n    }\n    None\n}\n\n"@
}

fn emit_route_handler(ai: usize, ri: usize, route: &ApiRoute, p: &XeresProgram, eps: &Parts) -> (r:
    String)
    requires
        route_ends(*route, *p),
        eps@ == endpoint_names(p.endpoints@),
    ensures
        r@ == route_handler_text(ai as nat, ri as nat, *route, *p),
{
    let params = match &route.body {
        Some(b) => cat3(&b.name, ": ", &map_rust_type(&b.ty)),
        None => "".to_owned(),
    };
    let body = emit_server_stmts(&route.body_stmts, &route.return_type, &p.models, &p.enums, eps);
    cat9(
        "pub fn ",
        &api_handler(ai, ri),
        "(",
        &params,
        ")",
        &emit_rust_return(&route.return_type),
        " {\n",
        &emit_lines(&body),
        "}\n\n",
    )
}

fn emit_respond(call: &str, ret: &Option<String>, models: &Vec<ModelNode>) -> (r: String)
    ensures
        r@ == respond_text(call@, *ret, models@),
{
    match ret {
        Some(t) => match generic_inner("Optional", t) {
            Some(inner) => cat5(
                "match ",
                call,
                " { Some(__v) => Some((200, ",
                &wire_serialize("__v", inner, models),
                ")), None => Some((404, String::new())) }",
            ),
            None => cat5(
                "let __r = ",
                call,
                "; Some((200, ",
                &wire_serialize("__r", t, models),
                "))",
            ),
        },
        None => cat2(call, "; Some((200, String::from(\"null\")))"),
    }
}

fn emit_route_arm(ai: usize, ri: usize, base: &str, route: &ApiRoute, p: &XeresProgram) -> (r:
    String)
    requires
        route_ends(*route, *p),
    ensures
        r@ == route_arm_text(ai as nat, ri as nat, base@, *route, *p),
{
    let h = api_handler(ai, ri);
    let pre = match &route.body {
        Some(b) => cat3(
            "let __b = jparse(body); let __arg = ",
            &decode_json_rust("Some(&__b)", &b.ty, &p.models, &p.enums),
            "; ",
        ),
        None => "".to_owned(),
    };
    let call = if route.body.is_some() {
        cat2(&h, "(__arg)")
    } else {
        cat2(&h, "()")
    };
    cat9(
        "        (\"",
        &route.method,
        "\", \"",
        base,
        &route.path,
        "\") => { ",
        &pre,
        &emit_respond(&call, &route.return_type, &p.models),
        " }\n",
    )
}

proof fn lemma_api_routes(a: ApiNode, p: XeresProgram)
    requires
        api_ends(a, p),
    ensures
        forall|k: int| 0 <= k < a.routes@.len() ==> route_ends(#[trigger] a.routes@[k], p),
{
}

fn emit_api_handlers(p: &XeresProgram, eps: &Parts) -> (r: String)
    requires
        apis_end(*p),
        eps@ == endpoint_names(p.endpoints@),
    ensures
        r@ == api_handlers_text(*p, p.apis@.len() as int),
{
    let mut out: String = String::new();
    let mut ai: usize = 0;
    while ai < p.apis.len()
        invariant
            ai <= p.apis.len(),
            apis_end(*p),
            eps@ == endpoint_names(p.endpoints@),
            out@ == api_handlers_text(*p, ai as int),
        decreases p.apis.len() - ai,
    {
        let routes = &p.apis[ai].routes;
        proof {
            lemma_api_routes(p.apis@[ai as int], *p);
        }
        let mut one: String = String::new();
        let mut ri: usize = 0;
        while ri < routes.len()
            invariant
                ri <= routes.len(),
                forall|k: int| 0 <= k < routes@.len() ==> route_ends(#[trigger] routes@[k], *p),
                eps@ == endpoint_names(p.endpoints@),
                one@ == route_handlers_text(ai as nat, routes@, ri as int, *p),
            decreases routes.len() - ri,
        {
            one = cat2(&one, &emit_route_handler(ai, ri, &routes[ri], p, eps));
            ri = ri + 1;
        }
        out = cat2(&out, &one);
        ai = ai + 1;
    }
    out
}

fn emit_api_arms(p: &XeresProgram) -> (r: String)
    requires
        apis_end(*p),
    ensures
        r@ == api_arms_text(*p, p.apis@.len() as int),
{
    let mut out: String = String::new();
    let mut ai: usize = 0;
    while ai < p.apis.len()
        invariant
            ai <= p.apis.len(),
            apis_end(*p),
            out@ == api_arms_text(*p, ai as int),
        decreases p.apis.len() - ai,
    {
        let api = &p.apis[ai];
        proof {
            lemma_api_routes(p.apis@[ai as int], *p);
        }
        let mut one: String = String::new();
        let mut ri: usize = 0;
        while ri < api.routes.len()
            invariant
                ri <= api.routes.len(),
                forall|k: int|
                    0 <= k < api.routes@.len() ==> route_ends(#[trigger] api.routes@[k], *p),
                one@ == route_arms_text(ai as nat, api.base@, api.routes@, ri as int, *p),
            decreases api.routes.len() - ri,
        {
            one = cat2(&one, &emit_route_arm(ai, ri, &api.base, &api.routes[ri], p));
            ri = ri + 1;
        }
        out = cat2(&out, &one);
        ai = ai + 1;
    }
    out
}

/// Generates the inbound API of a program.
pub fn gen_api(p: &XeresProgram) -> (r: String)
    requires
        apis_end(*p),
    ensures
        r@ == api_text(*p),
{
    let eps = endpoint_parts(&p.endpoints);
    let mut bases = Parts::new();
    let mut i: usize = 0;
    while i < p.apis.len()
        invariant
            i <= p.apis.len(),
            bases@ =~= api_bases(p.apis@).take(i as int),
        decreases p.apis.len() - i,
    {
        bases.push(p.apis[i].base.clone());
        i = i + 1;
    }
    proof {
        assert(bases@ =~= api_bases(p.apis@));
    }
    let distinct = dedup_parts(&sort_parts(&bases));
    let n: usize = distinct.len();
    let mut tests = Parts::new();
    let mut j: usize = 0;
    while j < n
        invariant
            j <= n,
            n == distinct@.len(),
            tests@ =~= base_tests(distinct@).take(j as int),
        decreases n - j,
    {
        tests.push(cat3("path.starts_with(\"", distinct.get(j), "\")"));
        j = j + 1;
    }
    proof {
        assert(tests@ =~= base_tests(distinct@));
    }
    cat6(
        &emit_api_handlers(p, &eps),
        "fn api_dispatch(method: &str, path: &str, body: &str) -> Option<(u16, String)> {\n    let _ = body;\n    let __hit = match (method, path) {\n",
        &emit_api_arms(p),
        "        _ => None,\n    };\n    if __hit.is_some() { return __hit; }\n    if ",
        &tests.join(" || "),
        " {\n        return Some((404, String::from(\"{\\\"error\\\":\\\"not found\\\"}\")));\n    }\n    None\n}\n\n",
    )
}

/// The paths of the protected screens among the first `n`.
pub open spec fn protected_arms(screens: Seq<ScreenNode>, n: int, default: Seq<char>) -> Seq<
    Seq<char>,
>
    decreases n,
{
    if n <= 0 || n > screens.len() {
        Seq::empty()
    } else if is_navigable(screens[n - 1]) && screens[n - 1].is_auth {
        protected_arms(screens, n - 1, default).push(
            debug_text(path_text(screens[n - 1].name@, default)),
        )
    } else {
        protected_arms(screens, n - 1, default)
    }
}

/// The name of the screen at `/`, or the empty text where there is none.
pub open spec fn default_name(screens: Seq<ScreenNode>) -> Seq<char> {
    match first_navigable(screens, 0) {
        Some(i) => screens[i].name@,
        None => ""@,
    }
}

/// The generated test for a path of an `auth` screen.
pub open spec fn protected_text(screens: Seq<ScreenNode>) -> Seq<char> {
    "fn is_protected_path(p: &str) -> bool { matches!(p, "@ + join_text(
        protected_arms(screens, screens.len() as int, default_name(screens)),
        " | "@,
    ) + ") }\n\n"@
}

/// Generates the test for a path of an `auth` screen.
pub fn gen_protected_paths(screens: &Vec<ScreenNode>) -> (r: String)
    ensures
        r@ == protected_text(screens@),
{
    let default = match default_screen(screens) {
        Some(i) => screens[i].name.clone(),
        None => "".to_owned(),
    };
    let mut arms = Parts::new();
    let mut i: usize = 0;
    while i < screens.len()
        invariant
            i <= screens.len(),
            default@ == default_name(screens@),
            arms@ == protected_arms(screens@, i as int, default@),
        decreases screens.len() - i,
    {
        let sc = &screens[i];
        if !sc.is_component && sc.params.len() == 0 && sc.is_auth {
            arms.push(quoted(&path_of(&sc.name, &default)));
        }
        i = i + 1;
    }
    cat3("fn is_protected_path(p: &str) -> bool { matches!(p, ", &arms.join(" | "), ") }\n\n")
}

/// Whether a screen with a path of its own is protected.
pub open spec fn has_auth_route_spec(screens: Seq<ScreenNode>) -> bool {
    exists|i: int|
        0 <= i < screens.len() && (#[trigger] screens[i]).is_auth && is_navigable(screens[i])
}

fn has_auth_route(screens: &Vec<ScreenNode>) -> (r: bool)
    ensures
        r == has_auth_route_spec(screens@),
{
    let mut i: usize = 0;
    while i < screens.len()
        invariant
            i <= screens.len(),
            forall|j: int|
                0 <= j < i ==> !((#[trigger] screens@[j]).is_auth && is_navigable(screens@[j])),
        decreases screens.len() - i,
    {
        let sc = &screens[i];
        if sc.is_auth && !sc.is_component && sc.params.len() == 0 {
            return true;
        }
        i = i + 1;
    }
    false
}

/// The first `n` parameters of a remote call, decoded.
pub open spec fn rpc_args(ps: Seq<Param>, n: int, p: XeresProgram) -> Seq<Seq<char>>
    decreases n,
{
    if n <= 0 || n > ps.len() {
        Seq::empty()
    } else {
        rpc_args(ps, n - 1, p).push(
            arg_extractor_text((n - 1) as nat, ps[n - 1].ty@, p.models@, p.enums@),
        )
    }
}

/// The remote-call arms of the server functions among the first `n`.
pub open spec fn rpc_arms_text(p: XeresProgram, n: int) -> Seq<char>
    decreases n,
{
    if n <= 0 || n > p.functions@.len() {
        Seq::empty()
    } else if p.functions@[n - 1].env == EnvModifier::Server {
        let f = p.functions@[n - 1];
        rpc_arms_text(p, n - 1) + "        \"/__xeres/"@ + f.name@ + "\" => Some((200, "@ + f.name@
            + "_rpc("@ + join_text(rpc_args(f.params@, f.params@.len() as int, p), ", "@)
            + "))),\n"@
    } else {
        rpc_arms_text(p, n - 1)
    }
}

fn emit_rpc_arms(p: &XeresProgram) -> (r: String)
    requires
        forall|k: int| 0 <= k < p.functions@.len() ==> function_ends(#[trigger] p.functions@[k], *p),
    ensures
        r@ == rpc_arms_text(*p, p.functions@.len() as int),
{
    let mut out: String = String::new();
    let mut i: usize = 0;
    while i < p.functions.len()
        invariant
            i <= p.functions.len(),
            forall|k: int| 0 <= k < p.functions@.len() ==> function_ends(#[trigger] p.functions@[k], *p),
            out@ == rpc_arms_text(*p, i as int),
        decreases p.functions.len() - i,
    {
        let f = &p.functions[i];
        if f.env == EnvModifier::Server {
            proof {
                assert(function_ends(p.functions@[i as int], *p));
            }
            let mut args = Parts::new();
            let mut j: usize = 0;
            while j < f.params.len()
                invariant
                    j <= f.params.len(),
                    f.env == EnvModifier::Server,
                    function_ends(*f, *p),
                    args@ == rpc_args(f.params@, j as int, *p),
                decreases f.params.len() - j,
            {
                proof {
                    assert(function_decodes(*f, *p, f.params@[j as int].ty@));
                }
                args.push(arg_extractor(j, &f.params[j].ty, &p.models, &p.enums));
                j = j + 1;
            }
            out = cat8(
                &out,
                "        \"/__xeres/",
                &f.name,
                "\" => Some((200, ",
                &f.name,
                "_rpc(",
                &args.join(", "),
                "))),\n",
            );
        }
        i = i + 1;
    }
    out
}

/// A place in the request loop, filled in or taken out.
pub open spec fn fill_text(
    src: Seq<char>,
    cond: bool,
    place: Seq<char>,
    code: Seq<char>,
) -> Seq<char> {
    if cond {
        replace_from(src, place, code, 0)
    } else {
        replace_from(src, place + "\n"@, ""@, 0)
    }
}

fn fill(src: &str, cond: bool, place: &str, code: &str) -> (r: String)
    requires
        place@.len() > 0,
    ensures
        r@ == fill_text(src@, cond, place@, code@),
{
    if cond {
        replace_all(src, place, code)
    } else {
        replace_all(src, &cat2(place, "\n"), "")
    }
}

/// The request loop of a program's server: the security headers, and, for a program that needs
/// them, the session cookie, the guard of protected paths and the inbound API.
pub open spec fn server_main_text(p: XeresProgram) -> Seq<char> {
    let session = functions_use_spec(p, Feature::Session);
    let s0 = replace_from(
        SERVER_MAIN@,
        "//__XERES_SECURITY_HEADERS__"@,
        "const SECURITY_HEADERS: &str = "@ + debug_text(SECURITY_HEADERS@) + ";"@,
        0,
    );
    let s1 = fill_text(
        s0,
        session,
        "    //__XERES_RECOVER__"@,
        "    let __actor = cookie_value(&req, \"xeres_session\").and_then(|c| session_verify(&c));\n    session_set_actor(__actor);"@,
    );
    let s2 = fill_text(
        s1,
        session,
        "    //__XERES_SETCOOKIE__"@,
        "    if let Some(c) = session_take_cookie() {\n        cookies.push_str(&format!(\"Set-Cookie: {}\\r\\n\", c));\n    }"@,
    );
    let s3 = fill_text(
        s2,
        has_auth_route_spec(p.screens@),
        "    //__XERES_GUARD__"@,
        "    if method == \"GET\" && session_actor().is_none() && is_protected_path(path) {\n        return (302, \"text/html\", String::from(\"/\"));\n    }"@,
    );
    fill_text(
        s3,
        p.apis@.len() > 0,
        "    //__XERES_API__"@,
        "    if let Some((__c, __j)) = api_dispatch(method, path, body) { return (__c, \"application/json\", __j); }"@,
    )
}

fn gen_server_main(p: &XeresProgram) -> (r: String)
    ensures
        r@ == server_main_text(*p),
{
    proof {
        reveal_strlit("//__XERES_SECURITY_HEADERS__");
        reveal_strlit("    //__XERES_RECOVER__");
        reveal_strlit("    //__XERES_SETCOOKIE__");
        reveal_strlit("    //__XERES_GUARD__");
        reveal_strlit("    //__XERES_API__");
    }
    let session = uses_session(p);
    let headers = cat3("const SECURITY_HEADERS: &str = ", &quoted(SECURITY_HEADERS), ";");
    let s0 = replace_all(SERVER_MAIN, "//__XERES_SECURITY_HEADERS__", &headers);
    let s1 = fill(
        &s0,
        session,
        "    //__XERES_RECOVER__",
        "    let __actor = cookie_value(&req, \"xeres_session\").and_then(|c| session_verify(&c));\n    session_set_actor(__actor);",
    );
    let s2 = fill(
        &s1,
        session,
        "    //__XERES_SETCOOKIE__",
        "    if let Some(c) = session_take_cookie() {\n        cookies.push_str(&format!(\"Set-Cookie: {}\\r\\n\", c));\n    }",
    );
    let s3 = fill(
        &s2,
        has_auth_route(&p.screens),
        "    //__XERES_GUARD__",
        "    if method == \"GET\" && session_actor().is_none() && is_protected_path(path) {\n        return (302, \"text/html\", String::from(\"/\"));\n    }",
    );
    fill(
        &s3,
        p.apis.len() > 0,
        "    //__XERES_API__",
        "    if let Some((__c, __j)) = api_dispatch(method, path, body) { return (__c, \"application/json\", __j); }",
    )
}

/// The server tier of a program.
pub open spec fn server_text(p: XeresProgram) -> Seq<char> {
    "// GENERATED by xeres — server tier (std-only HTTP). Do not edit.\n#![allow(dead_code, unused_variables, unused_parens, unused_mut)]\n\n"@
        + SERVER_HEAD@ + "\n"@ + prelude_text(functions_use_spec(p, Feature::Db), DB_PRELUDE@)
        + prelude_text(functions_use_spec(p, Feature::Auth), CRYPTO_PRELUDE@) + prelude_text(
        functions_use_spec(p, Feature::Session),
        SESSION_PRELUDE@,
    ) + prelude_text(uses_decimal_spec(p), DECIMAL_PRELUDE@) + prelude_text(
        p.endpoints@.len() > 0,
        HTTP_PRELUDE@,
    ) + prelude_text(
        p.endpoints@.len() > 0,
        endpoints_text(p.endpoints@, p.endpoints@.len() as int),
    ) + rust_enums_text(p.enums@, p.enums@.len() as int) + prelude_text(p.enums@.len() > 0, ""@)
        + rust_models_text(p.models@, p.models@.len() as int) + rust_functions_text(
        p,
        p.functions@.len() as int,
    ) + prelude_text(p.apis@.len() > 0, api_text(p)) + (if p.states@.len() == 0 {
        "fn sync_dispatch(_coll: &str, _body: &str) -> String { String::from(\"{\\\"lamport\\\":0,\\\"ops\\\":[]}\") }\n\n"@
    } else {
        SYNC_SERVER@ + "\n"@
    })
        + "fn route(path: &str, body: &str) -> Option<(u16, String)> {\n    let __a = jparse(body);\n    match path {\n"@
        + rpc_arms_text(p, p.functions@.len() as int) + "        _ => None,\n    }\n}\n\n"@ + (
    if has_auth_route_spec(p.screens@) {
        protected_text(p.screens@)
    } else {
        ""@
    }) + server_main_text(p)
}

/// Generates the server tier of a program whose decoders come to an end.
pub fn gen_server(p: &XeresProgram) -> (r: String)
    requires
        decoders_end(*p),
    ensures
        r@ == server_text(*p),
{
    proof {
        lemma_decoders_end(*p);
    }
    let eps = endpoint_parts(&p.endpoints);
    let head = cat9(
        "// GENERATED by xeres — server tier (std-only HTTP). Do not edit.\n#![allow(dead_code, unused_variables, unused_parens, unused_mut)]\n\n",
        SERVER_HEAD,
        "\n",
        &prelude(uses_db(p), DB_PRELUDE),
        &prelude(uses_auth(p), CRYPTO_PRELUDE),
        &prelude(uses_session(p), SESSION_PRELUDE),
        &prelude(uses_decimal(p), DECIMAL_PRELUDE),
        &prelude(p.endpoints.len() > 0, HTTP_PRELUDE),
        &prelude(p.endpoints.len() > 0, &emit_endpoints(&p.endpoints)),
    );
    let api = if p.apis.len() > 0 {
        cat2(&gen_api(p), "\n")
    } else {
        "".to_owned()
    };
    let sync = if p.states.len() == 0 {
        "fn sync_dispatch(_coll: &str, _body: &str) -> String { String::from(\"{\\\"lamport\\\":0,\\\"ops\\\":[]}\") }\n\n".to_owned()
    } else {
        cat2(SYNC_SERVER, "\n")
    };
    let protected = if has_auth_route(&p.screens) {
        gen_protected_paths(&p.screens)
    } else {
        "".to_owned()
    };
    cat12(
        &head,
        &emit_rust_enums(&p.enums),
        &prelude(p.enums.len() > 0, ""),
        &emit_rust_models(&p.models),
        &emit_rust_functions(p, &eps),
        &api,
        &sync,
        "fn route(path: &str, body: &str) -> Option<(u16, String)> {\n    let __a = jparse(body);\n    match path {\n",
        &emit_rpc_arms(p),
        "        _ => None,\n    }\n}\n\n",
        &protected,
        &gen_server_main(p),
    )
}

} // verus!
