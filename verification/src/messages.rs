//! What each broken rule is reported as.
use vstd::prelude::*;
use vstd::string::*;

use crate::diagnostics::{found, DiagView, Report};
use crate::text::{cat11, cat3, cat4, cat5, cat6, cat7, cat9};

verus! {

/// What rule `R20 match` reports here.
pub open spec fn match_not_enum_diag(t: Seq<char>, line: nat) -> Seq<DiagView> {
    found("R20 match"@, "`match` expects an enum, got `"@ + t + "`."@, line)
}

pub(crate) fn match_not_enum(t: &str, line: usize) -> (r: Report)
    ensures
        r@ == match_not_enum_diag(t@, line as nat),
{
    Report::one("R20 match", cat3("`match` expects an enum, got `", t, "`."), line)
}

/// What rule `R20 match` reports here.
pub open spec fn no_variant_diag(en: Seq<char>, v: Seq<char>, line: nat) -> Seq<DiagView> {
    found("R20 match"@, "enum `"@ + en + "` has no variant `"@ + v + "`."@, line)
}

pub(crate) fn no_variant(en: &str, v: &str, line: usize) -> (r: Report)
    ensures
        r@ == no_variant_diag(en@, v@, line as nat),
{
    Report::one("R20 match", cat5("enum `", en, "` has no variant `", v, "`."), line)
}

/// What rule `R20 match` reports here.
pub open spec fn not_exhaustive_diag(en: Seq<char>, missing: Seq<char>, line: nat) -> Seq<DiagView> {
    found("R20 match"@, "`match` on `"@ + en + "` is not exhaustive — missing "@ + missing + " (add it, or `_`)."@, line)
}

pub(crate) fn not_exhaustive(en: &str, missing: &str, line: usize) -> (r: Report)
    ensures
        r@ == not_exhaustive_diag(en@, missing@, line as nat),
{
    Report::one("R20 match", cat5("`match` on `", en, "` is not exhaustive — missing ", missing, " (add it, or `_`)."), line)
}

/// What rule `R16 try-context` reports here.
pub open spec fn try_context_diag(f: Seq<char>, line: nat) -> Seq<DiagView> {
    found("R16 try-context"@, "`try` in `"@ + f + "` is only valid in ui code; a server failure surfaces to the caller as a failed `await`."@, line)
}

pub(crate) fn try_context(f: &str, line: usize) -> (r: Report)
    ensures
        r@ == try_context_diag(f@, line as nat),
{
    Report::one("R16 try-context", cat3("`try` in `", f, "` is only valid in ui code; a server failure surfaces to the caller as a failed `await`."), line)
}

/// What rule `R14 if-condition` reports here.
pub open spec fn if_cond_diag(f: Seq<char>, t: Seq<char>, line: nat) -> Seq<DiagView> {
    found("R14 if-condition"@, "`if` condition in `"@ + f + "` must be Bool, got `"@ + t + "`."@, line)
}

pub(crate) fn if_cond(f: &str, t: &str, line: usize) -> (r: Report)
    ensures
        r@ == if_cond_diag(f@, t@, line as nat),
{
    Report::one("R14 if-condition", cat5("`if` condition in `", f, "` must be Bool, got `", t, "`."), line)
}

/// What rule `R14 if-condition` reports here.
pub open spec fn while_cond_diag(f: Seq<char>, t: Seq<char>, line: nat) -> Seq<DiagView> {
    found("R14 if-condition"@, "`while` condition in `"@ + f + "` must be Bool, got `"@ + t + "`."@, line)
}

pub(crate) fn while_cond(f: &str, t: &str, line: usize) -> (r: Report)
    ensures
        r@ == while_cond_diag(f@, t@, line as nat),
{
    Report::one("R14 if-condition", cat5("`while` condition in `", f, "` must be Bool, got `", t, "`."), line)
}

/// What rule `R14 if-condition` reports here.
pub open spec fn screen_if_cond_diag(s: Seq<char>, t: Seq<char>, line: nat) -> Seq<DiagView> {
    found("R14 if-condition"@, "`if` condition in screen `"@ + s + "` must be Bool, got `"@ + t + "`."@, line)
}

pub(crate) fn screen_if_cond(s: &str, t: &str, line: usize) -> (r: Report)
    ensures
        r@ == screen_if_cond_diag(s@, t@, line as nat),
{
    Report::one("R14 if-condition", cat5("`if` condition in screen `", s, "` must be Bool, got `", t, "`."), line)
}

/// What rule `R14 if-condition` reports here.
pub open spec fn ternary_cond_diag(f: Seq<char>, t: Seq<char>, line: nat) -> Seq<DiagView> {
    found("R14 if-condition"@, "ternary condition in `"@ + f + "` must be Bool, got `"@ + t + "`."@, line)
}

pub(crate) fn ternary_cond(f: &str, t: &str, line: usize) -> (r: Report)
    ensures
        r@ == ternary_cond_diag(f@, t@, line as nat),
{
    Report::one("R14 if-condition", cat5("ternary condition in `", f, "` must be Bool, got `", t, "`."), line)
}

/// What rule `R7 return-type` reports here.
pub open spec fn return_mismatch_diag(f: Seq<char>, declared: Seq<char>, actual: Seq<char>, line: nat) -> Seq<DiagView> {
    found("R7 return-type"@, "`"@ + f + "` is declared to return `"@ + declared + "`, but this `return` yields `"@ + actual + "`."@, line)
}

pub(crate) fn return_mismatch(f: &str, declared: &str, actual: &str, line: usize) -> (r: Report)
    ensures
        r@ == return_mismatch_diag(f@, declared@, actual@, line as nat),
{
    Report::one("R7 return-type", cat7("`", f, "` is declared to return `", declared, "`, but this `return` yields `", actual, "`."), line)
}

/// What rule `R7 return-type` reports here.
pub open spec fn return_undeclared_diag(f: Seq<char>, actual: Seq<char>, line: nat) -> Seq<DiagView> {
    found("R7 return-type"@, "`"@ + f + "` returns a value of type `"@ + actual + "` but declares no return type; add `-> "@ + actual + "`."@, line)
}

pub(crate) fn return_undeclared(f: &str, actual: &str, line: usize) -> (r: Report)
    ensures
        r@ == return_undeclared_diag(f@, actual@, line as nat),
{
    Report::one("R7 return-type", cat7("`", f, "` returns a value of type `", actual, "` but declares no return type; add `-> ", actual, "`."), line)
}

/// What rule `R1 unknown-type` reports here.
pub open spec fn prop_type_diag(name: Seq<char>, t: Seq<char>, s: Seq<char>, line: nat) -> Seq<DiagView> {
    found("R1 unknown-type"@, "prop `"@ + name + ": "@ + t + "` of screen `"@ + s + "` has unknown type."@, line)
}

pub(crate) fn prop_type(name: &str, t: &str, s: &str, line: usize) -> (r: Report)
    ensures
        r@ == prop_type_diag(name@, t@, s@, line as nat),
{
    Report::one("R1 unknown-type", cat7("prop `", name, ": ", t, "` of screen `", s, "` has unknown type."), line)
}

/// What rule `R1 unknown-type` reports here.
pub open spec fn cell_type_diag(name: Seq<char>, t: Seq<char>, s: Seq<char>, line: nat) -> Seq<DiagView> {
    found("R1 unknown-type"@, "state `"@ + name + ": "@ + t + "` in screen `"@ + s + "` has unknown type."@, line)
}

pub(crate) fn cell_type(name: &str, t: &str, s: &str, line: usize) -> (r: Report)
    ensures
        r@ == cell_type_diag(name@, t@, s@, line as nat),
{
    Report::one("R1 unknown-type", cat7("state `", name, ": ", t, "` in screen `", s, "` has unknown type."), line)
}

/// What rule `R1 unknown-type` reports here.
pub open spec fn model_field_type_diag(m: Seq<char>, name: Seq<char>, t: Seq<char>, line: nat) -> Seq<DiagView> {
    found("R1 unknown-type"@, "field `"@ + m + "."@ + name + "` has unknown type `"@ + t + "`."@, line)
}

pub(crate) fn model_field_type(m: &str, name: &str, t: &str, line: usize) -> (r: Report)
    ensures
        r@ == model_field_type_diag(m@, name@, t@, line as nat),
{
    Report::one("R1 unknown-type", cat7("field `", m, ".", name, "` has unknown type `", t, "`."), line)
}

/// What rule `R1 unknown-type` reports here.
pub open spec fn synced_type_diag(name: Seq<char>, t: Seq<char>, line: nat) -> Seq<DiagView> {
    found("R1 unknown-type"@, "synced state `"@ + name + "` references unknown type `"@ + t + "`."@, line)
}

pub(crate) fn synced_type(name: &str, t: &str, line: usize) -> (r: Report)
    ensures
        r@ == synced_type_diag(name@, t@, line as nat),
{
    Report::one("R1 unknown-type", cat5("synced state `", name, "` references unknown type `", t, "`."), line)
}

/// What rule `R1 unknown-type` reports here.
pub open spec fn param_type_diag(name: Seq<char>, t: Seq<char>, f: Seq<char>, line: nat) -> Seq<DiagView> {
    found("R1 unknown-type"@, "parameter `"@ + name + ": "@ + t + "` of `"@ + f + "` has unknown type."@, line)
}

pub(crate) fn param_type(name: &str, t: &str, f: &str, line: usize) -> (r: Report)
    ensures
        r@ == param_type_diag(name@, t@, f@, line as nat),
{
    Report::one("R1 unknown-type", cat7("parameter `", name, ": ", t, "` of `", f, "` has unknown type."), line)
}

/// What rule `R1 unknown-type` reports here.
pub open spec fn return_type_diag(t: Seq<char>, f: Seq<char>, line: nat) -> Seq<DiagView> {
    found("R1 unknown-type"@, "return type `"@ + t + "` of `"@ + f + "` is unknown."@, line)
}

pub(crate) fn return_type(t: &str, f: &str, line: usize) -> (r: Report)
    ensures
        r@ == return_type_diag(t@, f@, line as nat),
{
    Report::one("R1 unknown-type", cat5("return type `", t, "` of `", f, "` is unknown."), line)
}

/// What rule `R1 unknown-type` reports here.
pub open spec fn not_model_diag(name: Seq<char>, line: nat) -> Seq<DiagView> {
    found("R1 unknown-type"@, "`"@ + name + "` is not a known model."@, line)
}

pub(crate) fn not_model(name: &str, line: usize) -> (r: Report)
    ensures
        r@ == not_model_diag(name@, line as nat),
{
    Report::one("R1 unknown-type", cat3("`", name, "` is not a known model."), line)
}

/// What rule `R11 state-init` reports here.
pub open spec fn cell_init_diag(name: Seq<char>, t: Seq<char>, actual: Seq<char>, line: nat) -> Seq<DiagView> {
    found("R11 state-init"@, "state `"@ + name + "` is `"@ + t + "` but its initializer is `"@ + actual + "`."@, line)
}

pub(crate) fn cell_init(name: &str, t: &str, actual: &str, line: usize) -> (r: Report)
    ensures
        r@ == cell_init_diag(name@, t@, actual@, line as nat),
{
    Report::one("R11 state-init", cat7("state `", name, "` is `", t, "` but its initializer is `", actual, "`."), line)
}

/// What rule `R11 state-init` reports here.
pub open spec fn assign_mismatch_diag(name: Seq<char>, t: Seq<char>, actual: Seq<char>, line: nat) -> Seq<DiagView> {
    found("R11 state-init"@, "`"@ + name + "` is `"@ + t + "` but is assigned `"@ + actual + "`."@, line)
}

pub(crate) fn assign_mismatch(name: &str, t: &str, actual: &str, line: usize) -> (r: Report)
    ensures
        r@ == assign_mismatch_diag(name@, t@, actual@, line as nat),
{
    Report::one("R11 state-init", cat7("`", name, "` is `", t, "` but is assigned `", actual, "`."), line)
}

/// What rule `R30 raw-taint` reports here.
pub open spec fn raw_taint_diag(kind: Seq<char>, s: Seq<char>, line: nat) -> Seq<DiagView> {
    found("R30 raw-taint"@, "`raw(...)` in "@ + kind + " `"@ + s + "` wraps untrusted inbound data (a prop or input-bound `state`), which would inject unescaped HTML from the request surface. Render it with default escaping (drop `raw`), or build the trusted HTML in a `server fn` and `await` it into a non-bound `state` first."@, line)
}

pub(crate) fn raw_taint(kind: &str, s: &str, line: usize) -> (r: Report)
    ensures
        r@ == raw_taint_diag(kind@, s@, line as nat),
{
    Report::one("R30 raw-taint", cat5("`raw(...)` in ", kind, " `", s, "` wraps untrusted inbound data (a prop or input-bound `state`), which would inject unescaped HTML from the request surface. Render it with default escaping (drop `raw`), or build the trusted HTML in a `server fn` and `await` it into a non-bound `state` first."), line)
}

/// What rule `R13 input-binding` reports here.
pub open spec fn bind_cell_diag(v: Seq<char>, tag: Seq<char>, s: Seq<char>, want: Seq<char>, line: nat) -> Seq<DiagView> {
    found("R13 input-binding"@, "`bind "@ + v + "` on `"@ + tag + "` in screen `"@ + s + "` requires a `state "@ + v + ": "@ + want + "` cell."@, line)
}

pub(crate) fn bind_cell(v: &str, tag: &str, s: &str, want: &str, line: usize) -> (r: Report)
    ensures
        r@ == bind_cell_diag(v@, tag@, s@, want@, line as nat),
{
    Report::one("R13 input-binding", cat11("`bind ", v, "` on `", tag, "` in screen `", s, "` requires a `state ", v, ": ", want, "` cell."), line)
}

/// What rule `R28 navigation` reports here.
pub open spec fn link_target_diag(s: Seq<char>, line: nat) -> Seq<DiagView> {
    found("R28 navigation"@, "`link` in screen `"@ + s + "` needs a target screen: `link \"Label\" -> Screen`."@, line)
}

pub(crate) fn link_target(s: &str, line: usize) -> (r: Report)
    ensures
        r@ == link_target_diag(s@, line as nat),
{
    Report::one("R28 navigation", cat3("`link` in screen `", s, "` needs a target screen: `link \"Label\" -> Screen`."), line)
}

/// What rule `R28 navigation` reports here.
pub open spec fn nav_unknown_diag(site: Seq<char>, name: Seq<char>, line: nat) -> Seq<DiagView> {
    found("R28 navigation"@, site + " targets `"@ + name + "`, which is not a navigable screen. Declare a prop-less `ui screen "@ + name + " { … }`."@, line)
}

pub(crate) fn nav_unknown(site: &str, name: &str, line: usize) -> (r: Report)
    ensures
        r@ == nav_unknown_diag(site@, name@, line as nat),
{
    Report::one("R28 navigation", cat6(site, " targets `", name, "`, which is not a navigable screen. Declare a prop-less `ui screen ", name, " { … }`."), line)
}

/// What rule `R28 navigation` reports here.
pub open spec fn nav_props_diag(site: Seq<char>, name: Seq<char>, line: nat) -> Seq<DiagView> {
    found("R28 navigation"@, site + " targets `"@ + name + "`, which takes props — only prop-less screens are navigable. Have `"@ + name + "` fetch its data in `on load` instead."@, line)
}

pub(crate) fn nav_props(site: &str, name: &str, line: usize) -> (r: Report)
    ensures
        r@ == nav_props_diag(site@, name@, line as nat),
{
    Report::one("R28 navigation", cat6(site, " targets `", name, "`, which takes props — only prop-less screens are navigable. Have `", name, "` fetch its data in `on load` instead."), line)
}

/// What rule `R28 navigation` reports here.
pub open spec fn nav_not_screen_diag(site: Seq<char>, s: Seq<char>, line: nat) -> Seq<DiagView> {
    found("R28 navigation"@, site + " in `"@ + s + "` must name a screen, e.g. `navigate(Home)` — not an arbitrary expression."@, line)
}

pub(crate) fn nav_not_screen(site: &str, s: &str, line: usize) -> (r: Report)
    ensures
        r@ == nav_not_screen_diag(site@, s@, line as nat),
{
    Report::one("R28 navigation", cat4(site, " in `", s, "` must name a screen, e.g. `navigate(Home)` — not an arbitrary expression."), line)
}

/// What rule `R28 navigation` reports here.
pub open spec fn nav_env_diag(f: Seq<char>, env: Seq<char>, line: nat) -> Seq<DiagView> {
    found("R28 navigation"@, "`navigate(...)` in `"@ + f + "` runs "@ + env + "; navigation is browser-only — call it from a `ui` screen handler or `on load`."@, line)
}

pub(crate) fn nav_env(f: &str, env: &str, line: usize) -> (r: Report)
    ensures
        r@ == nav_env_diag(f@, env@, line as nat),
{
    Report::one("R28 navigation", cat5("`navigate(...)` in `", f, "` runs ", env, "; navigation is browser-only — call it from a `ui` screen handler or `on load`."), line)
}

/// What rule `R28 navigation` reports here.
pub open spec fn nav_arity_diag(line: nat) -> Seq<DiagView> {
    found("R28 navigation"@, "`navigate` takes exactly one screen, e.g. `navigate(Home)`."@, line)
}

pub(crate) fn nav_arity(line: usize) -> (r: Report)
    ensures
        r@ == nav_arity_diag(line as nat),
{
    Report::one("R28 navigation", "`navigate` takes exactly one screen, e.g. `navigate(Home)`.".to_owned(), line)
}

/// What rule `R32 route-param` reports here.
pub open spec fn nav_needs_params_diag(site: Seq<char>, name: Seq<char>, line: nat) -> Seq<DiagView> {
    found("R32 route-param"@, site + " targets the route `"@ + name + "`, which takes params — supply them: `navigate("@ + name + " { … })`."@, line)
}

pub(crate) fn nav_needs_params(site: &str, name: &str, line: usize) -> (r: Report)
    ensures
        r@ == nav_needs_params_diag(site@, name@, line as nat),
{
    Report::one("R32 route-param", cat6(site, " targets the route `", name, "`, which takes params — supply them: `navigate(", name, " { … })`."), line)
}

/// What rule `R32 route-param` reports here.
pub open spec fn nav_unknown_screen_diag(site: Seq<char>, name: Seq<char>, line: nat) -> Seq<DiagView> {
    found("R32 route-param"@, site + " targets `"@ + name + "`, which is not a known screen."@, line)
}

pub(crate) fn nav_unknown_screen(site: &str, name: &str, line: usize) -> (r: Report)
    ensures
        r@ == nav_unknown_screen_diag(site@, name@, line as nat),
{
    Report::one("R32 route-param", cat4(site, " targets `", name, "`, which is not a known screen."), line)
}

/// What rule `R32 route-param` reports here.
pub open spec fn nav_no_route_diag(site: Seq<char>, name: Seq<char>, line: nat) -> Seq<DiagView> {
    found("R32 route-param"@, site + " supplies params to `"@ + name + "`, but it has no `route` pattern — only a route with params takes `{ … }`."@, line)
}

pub(crate) fn nav_no_route(site: &str, name: &str, line: usize) -> (r: Report)
    ensures
        r@ == nav_no_route_diag(site@, name@, line as nat),
{
    Report::one("R32 route-param", cat4(site, " supplies params to `", name, "`, but it has no `route` pattern — only a route with params takes `{ … }`."), line)
}

/// What rule `R32 route-param` reports here.
pub open spec fn nav_twice_diag(f: Seq<char>, name: Seq<char>, line: nat) -> Seq<DiagView> {
    found("R32 route-param"@, "param `"@ + f + "` supplied twice to `"@ + name + "`."@, line)
}

pub(crate) fn nav_twice(f: &str, name: &str, line: usize) -> (r: Report)
    ensures
        r@ == nav_twice_diag(f@, name@, line as nat),
{
    Report::one("R32 route-param", cat5("param `", f, "` supplied twice to `", name, "`."), line)
}

/// What rule `R32 route-param` reports here.
pub open spec fn nav_no_param_diag(f: Seq<char>, name: Seq<char>, line: nat) -> Seq<DiagView> {
    found("R32 route-param"@, "`"@ + f + "` is not a param of route `"@ + name + "`."@, line)
}

pub(crate) fn nav_no_param(f: &str, name: &str, line: usize) -> (r: Report)
    ensures
        r@ == nav_no_param_diag(f@, name@, line as nat),
{
    Report::one("R32 route-param", cat5("`", f, "` is not a param of route `", name, "`."), line)
}

/// What rule `R32 route-param` reports here.
pub open spec fn nav_param_type_diag(f: Seq<char>, name: Seq<char>, t: Seq<char>, actual: Seq<char>, line: nat) -> Seq<DiagView> {
    found("R32 route-param"@, "param `"@ + f + "` of `"@ + name + "` is `"@ + t + "`, got `"@ + actual + "`."@, line)
}

pub(crate) fn nav_param_type(f: &str, name: &str, t: &str, actual: &str, line: usize) -> (r: Report)
    ensures
        r@ == nav_param_type_diag(f@, name@, t@, actual@, line as nat),
{
    Report::one("R32 route-param", cat9("param `", f, "` of `", name, "` is `", t, "`, got `", actual, "`."), line)
}

/// What rule `R32 route-param` reports here.
pub open spec fn nav_missing_diag(site: Seq<char>, name: Seq<char>, f: Seq<char>, line: nat) -> Seq<DiagView> {
    found("R32 route-param"@, site + " to `"@ + name + "` is missing param `"@ + f + "`."@, line)
}

pub(crate) fn nav_missing(site: &str, name: &str, f: &str, line: usize) -> (r: Report)
    ensures
        r@ == nav_missing_diag(site@, name@, f@, line as nat),
{
    Report::one("R32 route-param", cat6(site, " to `", name, "` is missing param `", f, "`."), line)
}

/// What rule `R32 route-param` reports here.
pub open spec fn route_component_diag(s: Seq<char>, line: nat) -> Seq<DiagView> {
    found("R32 route-param"@, "`route` is for screens, not component `"@ + s + "`."@, line)
}

pub(crate) fn route_component(s: &str, line: usize) -> (r: Report)
    ensures
        r@ == route_component_diag(s@, line as nat),
{
    Report::one("R32 route-param", cat3("`route` is for screens, not component `", s, "`."), line)
}

/// What rule `R32 route-param` reports here.
pub open spec fn route_static_diag(pattern: Seq<char>, s: Seq<char>, line: nat) -> Seq<DiagView> {
    found("R32 route-param"@, "route `"@ + pattern + "` on `"@ + s + "` has no `:param` segment — use a plain screen for a static path."@, line)
}

pub(crate) fn route_static(pattern: &str, s: &str, line: usize) -> (r: Report)
    ensures
        r@ == route_static_diag(pattern@, s@, line as nat),
{
    Report::one("R32 route-param", cat5("route `", pattern, "` on `", s, "` has no `:param` segment — use a plain screen for a static path."), line)
}

/// What rule `R32 route-param` reports here.
pub open spec fn route_no_prop_diag(name: Seq<char>, s: Seq<char>, line: nat) -> Seq<DiagView> {
    found("R32 route-param"@, "route param `:"@ + name + "` on `"@ + s + "` has no matching prop — add `"@ + name + ": String` (or `Int`)."@, line)
}

pub(crate) fn route_no_prop(name: &str, s: &str, line: usize) -> (r: Report)
    ensures
        r@ == route_no_prop_diag(name@, s@, line as nat),
{
    Report::one("R32 route-param", cat7("route param `:", name, "` on `", s, "` has no matching prop — add `", name, ": String` (or `Int`)."), line)
}

/// What rule `R32 route-param` reports here.
pub open spec fn route_unbound_diag(name: Seq<char>, s: Seq<char>, pattern: Seq<char>, line: nat) -> Seq<DiagView> {
    found("R32 route-param"@, "prop `"@ + name + "` on route `"@ + s + "` isn't bound by the pattern `"@ + pattern + "` (add `:"@ + name + "`)."@, line)
}

pub(crate) fn route_unbound(name: &str, s: &str, pattern: &str, line: usize) -> (r: Report)
    ensures
        r@ == route_unbound_diag(name@, s@, pattern@, line as nat),
{
    Report::one("R32 route-param", cat9("prop `", name, "` on route `", s, "` isn't bound by the pattern `", pattern, "` (add `:", name, "`)."), line)
}

/// What rule `R32 route-param` reports here.
pub open spec fn route_prop_type_diag(name: Seq<char>, s: Seq<char>, t: Seq<char>, line: nat) -> Seq<DiagView> {
    found("R32 route-param"@, "route param `"@ + name + "` on `"@ + s + "` must be `String` or `Int`, got `"@ + t + "` (it's parsed from a URL segment)."@, line)
}

pub(crate) fn route_prop_type(name: &str, s: &str, t: &str, line: usize) -> (r: Report)
    ensures
        r@ == route_prop_type_diag(name@, s@, t@, line as nat),
{
    Report::one("R32 route-param", cat7("route param `", name, "` on `", s, "` must be `String` or `Int`, got `", t, "` (it's parsed from a URL segment)."), line)
}

/// What rule `R17 component` reports here.
pub open spec fn unknown_component_diag(name: Seq<char>, line: nat) -> Seq<DiagView> {
    found("R17 component"@, "`"@ + name + "` is not a known component. Declare it with `ui component "@ + name + "(...) { view { … } }`."@, line)
}

pub(crate) fn unknown_component(name: &str, line: usize) -> (r: Report)
    ensures
        r@ == unknown_component_diag(name@, line as nat),
{
    Report::one("R17 component", cat5("`", name, "` is not a known component. Declare it with `ui component ", name, "(...) { view { … } }`."), line)
}

/// What rule `R17 component` reports here.
pub open spec fn component_no_param_diag(name: Seq<char>, f: Seq<char>, line: nat) -> Seq<DiagView> {
    found("R17 component"@, "component `"@ + name + "` has no param `"@ + f + "`."@, line)
}

pub(crate) fn component_no_param(name: &str, f: &str, line: usize) -> (r: Report)
    ensures
        r@ == component_no_param_diag(name@, f@, line as nat),
{
    Report::one("R17 component", cat5("component `", name, "` has no param `", f, "`."), line)
}

/// What rule `R17 component` reports here.
pub open spec fn component_twice_diag(f: Seq<char>, name: Seq<char>, line: nat) -> Seq<DiagView> {
    found("R17 component"@, "param `"@ + f + "` is set more than once for `"@ + name + "`."@, line)
}

pub(crate) fn component_twice(f: &str, name: &str, line: usize) -> (r: Report)
    ensures
        r@ == component_twice_diag(f@, name@, line as nat),
{
    Report::one("R17 component", cat5("param `", f, "` is set more than once for `", name, "`."), line)
}

/// What rule `R17 component` reports here.
pub open spec fn component_arg_diag(name: Seq<char>, f: Seq<char>, t: Seq<char>, actual: Seq<char>, line: nat) -> Seq<DiagView> {
    found("R17 component"@, "param `"@ + name + "."@ + f + "` expects `"@ + t + "`, but got `"@ + actual + "`."@, line)
}

pub(crate) fn component_arg(name: &str, f: &str, t: &str, actual: &str, line: usize) -> (r: Report)
    ensures
        r@ == component_arg_diag(name@, f@, t@, actual@, line as nat),
{
    Report::one("R17 component", cat9("param `", name, ".", f, "` expects `", t, "`, but got `", actual, "`."), line)
}

/// What rule `R17 component` reports here.
pub open spec fn component_missing_diag(f: Seq<char>, name: Seq<char>, line: nat) -> Seq<DiagView> {
    found("R17 component"@, "missing param `"@ + f + "` when invoking `"@ + name + "`."@, line)
}

pub(crate) fn component_missing(f: &str, name: &str, line: usize) -> (r: Report)
    ensures
        r@ == component_missing_diag(f@, name@, line as nat),
{
    Report::one("R17 component", cat5("missing param `", f, "` when invoking `", name, "`."), line)
}

/// What rule `R17 component` reports here.
pub open spec fn component_case_diag(s: Seq<char>, line: nat) -> Seq<DiagView> {
    found("R17 component"@, "component `"@ + s + "` must start with an uppercase letter — components are invoked as a Capitalized tag in views (e.g. `"@ + s + "` vs a lowercase built-in element)."@, line)
}

pub(crate) fn component_case(s: &str, line: usize) -> (r: Report)
    ensures
        r@ == component_case_diag(s@, line as nat),
{
    Report::one("R17 component", cat5("component `", s, "` must start with an uppercase letter — components are invoked as a Capitalized tag in views (e.g. `", s, "` vs a lowercase built-in element)."), line)
}

/// What rule `R8 unknown-binding` reports here.
pub open spec fn assign_unknown_diag(name: Seq<char>, s: Seq<char>, line: nat) -> Seq<DiagView> {
    found("R8 unknown-binding"@, "cannot assign to `"@ + name + "` in screen `"@ + s + "` — it is not a declared `state` cell."@, line)
}

pub(crate) fn assign_unknown(name: &str, s: &str, line: usize) -> (r: Report)
    ensures
        r@ == assign_unknown_diag(name@, s@, line as nat),
{
    Report::one("R8 unknown-binding", cat5("cannot assign to `", name, "` in screen `", s, "` — it is not a declared `state` cell."), line)
}

/// What rule `R8 unknown-binding` reports here.
pub open spec fn not_in_scope_diag(v: Seq<char>, s: Seq<char>, line: nat) -> Seq<DiagView> {
    found("R8 unknown-binding"@, "`"@ + v + "` is not in scope in screen `"@ + s + "`. Pass it as a prop, e.g. `ui screen "@ + s + "("@ + v + ": Type)`."@, line)
}

pub(crate) fn not_in_scope(v: &str, s: &str, line: usize) -> (r: Report)
    ensures
        r@ == not_in_scope_diag(v@, s@, line as nat),
{
    Report::one("R8 unknown-binding", cat9("`", v, "` is not in scope in screen `", s, "`. Pass it as a prop, e.g. `ui screen ", s, "(", v, ": Type)`."), line)
}

/// What rule `R3 secret-containment` reports here.
pub open spec fn secret_read_diag(m: Seq<char>, field: Seq<char>, f: Seq<char>, env: Seq<char>, line: nat) -> Seq<DiagView> {
    found("R3 secret-containment"@, "secret field `"@ + m + "."@ + field + "` is read inside `"@ + f + "`, which runs "@ + env + ". Secret data may only be touched server-side."@, line)
}

pub(crate) fn secret_read(m: &str, field: &str, f: &str, env: &str, line: usize) -> (r: Report)
    ensures
        r@ == secret_read_diag(m@, field@, f@, env@, line as nat),
{
    Report::one("R3 secret-containment", cat9("secret field `", m, ".", field, "` is read inside `", f, "`, which runs ", env, ". Secret data may only be touched server-side."), line)
}

/// What rule `R29 decimal` reports here.
pub open spec fn decimal_arity_diag(line: nat) -> Seq<DiagView> {
    found("R29 decimal"@, "`decimal(...)` takes exactly one string, e.g. `decimal(\"19.99\")`."@, line)
}

pub(crate) fn decimal_arity(line: usize) -> (r: Report)
    ensures
        r@ == decimal_arity_diag(line as nat),
{
    Report::one("R29 decimal", "`decimal(...)` takes exactly one string, e.g. `decimal(\"19.99\")`.".to_owned(), line)
}

/// What rule `R29 decimal` reports here.
pub open spec fn decimal_arg_diag(t: Seq<char>, line: nat) -> Seq<DiagView> {
    found("R29 decimal"@, "`decimal(...)` takes a `String`, got `"@ + t + "`. Write the amount as a string literal: `decimal(\"19.99\")`."@, line)
}

pub(crate) fn decimal_arg(t: &str, line: usize) -> (r: Report)
    ensures
        r@ == decimal_arg_diag(t@, line as nat),
{
    Report::one("R29 decimal", cat3("`decimal(...)` takes a `String`, got `", t, "`. Write the amount as a string literal: `decimal(\"19.99\")`."), line)
}

/// What rule `R29 decimal` reports here.
pub open spec fn decimal_mix_diag(op: Seq<char>, f: Seq<char>, lt: Seq<char>, rt: Seq<char>, line: nat) -> Seq<DiagView> {
    found("R29 decimal"@, "`"@ + op + "` in `"@ + f + "` mixes `"@ + lt + "` and `"@ + rt + "`. Decimal is exact money: use `+`, `-`, `*` and comparisons between Decimals, or scale by an `Int` with `*`."@, line)
}

pub(crate) fn decimal_mix(op: &str, f: &str, lt: &str, rt: &str, line: usize) -> (r: Report)
    ensures
        r@ == decimal_mix_diag(op@, f@, lt@, rt@, line as nat),
{
    Report::one("R29 decimal", cat9("`", op, "` in `", f, "` mixes `", lt, "` and `", rt, "`. Decimal is exact money: use `+`, `-`, `*` and comparisons between Decimals, or scale by an `Int` with `*`."), line)
}

/// What rule `R19 auth-builtin` reports here.
pub open spec fn auth_builtin_env_diag(c: Seq<char>, f: Seq<char>, env: Seq<char>, line: nat) -> Seq<DiagView> {
    found("R19 auth-builtin"@, "`"@ + c + "(...)` is a server-only builtin; `"@ + f + "` runs "@ + env + ". Do password hashing/verification in a `server fn`."@, line)
}

pub(crate) fn auth_builtin_env(c: &str, f: &str, env: &str, line: usize) -> (r: Report)
    ensures
        r@ == auth_builtin_env_diag(c@, f@, env@, line as nat),
{
    Report::one("R19 auth-builtin", cat7("`", c, "(...)` is a server-only builtin; `", f, "` runs ", env, ". Do password hashing/verification in a `server fn`."), line)
}

/// What rule `R19 auth-builtin` reports here.
pub open spec fn auth_builtin_arity_diag(c: Seq<char>, n: Seq<char>, line: nat) -> Seq<DiagView> {
    found("R19 auth-builtin"@, "`"@ + c + "` takes exactly "@ + n + " argument(s)."@, line)
}

pub(crate) fn auth_builtin_arity(c: &str, n: &str, line: usize) -> (r: Report)
    ensures
        r@ == auth_builtin_arity_diag(c@, n@, line as nat),
{
    Report::one("R19 auth-builtin", cat5("`", c, "` takes exactly ", n, " argument(s)."), line)
}

/// What rule `R6 declassify-context` reports here.
pub open spec fn declassify_env_diag(f: Seq<char>, env: Seq<char>, line: nat) -> Seq<DiagView> {
    found("R6 declassify-context"@, "`declassify(...)` used inside `"@ + f + "`, which runs "@ + env + ". Secret data may only be declassified server-side."@, line)
}

pub(crate) fn declassify_env(f: &str, env: &str, line: usize) -> (r: Report)
    ensures
        r@ == declassify_env_diag(f@, env@, line as nat),
{
    Report::one("R6 declassify-context", cat5("`declassify(...)` used inside `", f, "`, which runs ", env, ". Secret data may only be declassified server-side."), line)
}

/// What rule `R9 record-construction` reports here.
pub open spec fn or_arity_diag(line: nat) -> Seq<DiagView> {
    found("R9 record-construction"@, "`or` takes exactly one default value."@, line)
}

pub(crate) fn or_arity(line: usize) -> (r: Report)
    ensures
        r@ == or_arity_diag(line as nat),
{
    Report::one("R9 record-construction", "`or` takes exactly one default value.".to_owned(), line)
}

/// What rule `R9 record-construction` reports here.
pub open spec fn or_type_diag(inner: Seq<char>, actual: Seq<char>, line: nat) -> Seq<DiagView> {
    found("R9 record-construction"@, "`or` default must be `"@ + inner + "`, got `"@ + actual + "`."@, line)
}

pub(crate) fn or_type(inner: &str, actual: &str, line: usize) -> (r: Report)
    ensures
        r@ == or_type_diag(inner@, actual@, line as nat),
{
    Report::one("R9 record-construction", cat5("`or` default must be `", inner, "`, got `", actual, "`."), line)
}

/// What rule `R9 record-construction` reports here.
pub open spec fn no_field_diag(m: Seq<char>, f: Seq<char>, line: nat) -> Seq<DiagView> {
    found("R9 record-construction"@, "model `"@ + m + "` has no field `"@ + f + "`."@, line)
}

pub(crate) fn no_field(m: &str, f: &str, line: usize) -> (r: Report)
    ensures
        r@ == no_field_diag(m@, f@, line as nat),
{
    Report::one("R9 record-construction", cat5("model `", m, "` has no field `", f, "`."), line)
}

/// What rule `R9 record-construction` reports here.
pub open spec fn field_twice_diag(f: Seq<char>, m: Seq<char>, line: nat) -> Seq<DiagView> {
    found("R9 record-construction"@, "field `"@ + f + "` is set more than once in `"@ + m + "`."@, line)
}

pub(crate) fn field_twice(f: &str, m: &str, line: usize) -> (r: Report)
    ensures
        r@ == field_twice_diag(f@, m@, line as nat),
{
    Report::one("R9 record-construction", cat5("field `", f, "` is set more than once in `", m, "`."), line)
}

/// What rule `R9 record-construction` reports here.
pub open spec fn field_value_diag(m: Seq<char>, f: Seq<char>, t: Seq<char>, actual: Seq<char>, line: nat) -> Seq<DiagView> {
    found("R9 record-construction"@, "field `"@ + m + "."@ + f + "` expects `"@ + t + "`, but got `"@ + actual + "`."@, line)
}

pub(crate) fn field_value(m: &str, f: &str, t: &str, actual: &str, line: usize) -> (r: Report)
    ensures
        r@ == field_value_diag(m@, f@, t@, actual@, line as nat),
{
    Report::one("R9 record-construction", cat9("field `", m, ".", f, "` expects `", t, "`, but got `", actual, "`."), line)
}

/// What rule `R9 record-construction` reports here.
pub open spec fn missing_field_diag(f: Seq<char>, m: Seq<char>, line: nat) -> Seq<DiagView> {
    found("R9 record-construction"@, "missing field `"@ + f + "` when constructing `"@ + m + "`."@, line)
}

pub(crate) fn missing_field(f: &str, m: &str, line: usize) -> (r: Report)
    ensures
        r@ == missing_field_diag(f@, m@, line as nat),
{
    Report::one("R9 record-construction", cat5("missing field `", f, "` when constructing `", m, "`."), line)
}

/// What rule `R18 conditional-branch` reports here.
pub open spec fn branches_diag(f: Seq<char>, a: Seq<char>, b: Seq<char>, line: nat) -> Seq<DiagView> {
    found("R18 conditional-branch"@, "the branches of `?:` in `"@ + f + "` have incompatible types `"@ + a + "` and `"@ + b + "`."@, line)
}

pub(crate) fn branches(f: &str, a: &str, b: &str, line: usize) -> (r: Report)
    ensures
        r@ == branches_diag(f@, a@, b@, line as nat),
{
    Report::one("R18 conditional-branch", cat7("the branches of `?:` in `", f, "` have incompatible types `", a, "` and `", b, "`."), line)
}

/// What rule `R15 db-capability` reports here.
pub open spec fn db_env_diag(f: Seq<char>, env: Seq<char>, line: nat) -> Seq<DiagView> {
    found("R15 db-capability"@, "`db` is a server-only capability; `"@ + f + "` runs "@ + env + ". The DB connection cannot reach the browser."@, line)
}

pub(crate) fn db_env(f: &str, env: &str, line: usize) -> (r: Report)
    ensures
        r@ == db_env_diag(f@, env@, line as nat),
{
    Report::one("R15 db-capability", cat5("`db` is a server-only capability; `", f, "` runs ", env, ". The DB connection cannot reach the browser."), line)
}

/// What rule `R15 db-capability` reports here.
pub open spec fn db_method_diag(m: Seq<char>, line: nat) -> Seq<DiagView> {
    found("R15 db-capability"@, "`db` has no method `"@ + m + "` (use query_one, query, exec)."@, line)
}

pub(crate) fn db_method(m: &str, line: usize) -> (r: Report)
    ensures
        r@ == db_method_diag(m@, line as nat),
{
    Report::one("R15 db-capability", cat3("`db` has no method `", m, "` (use query_one, query, exec)."), line)
}

/// What rule `R23 sql-literal` reports here.
pub open spec fn sql_literal_diag(m: Seq<char>, line: nat) -> Seq<DiagView> {
    found("R23 sql-literal"@, "`db."@ + m + "(...)` requires a string-literal query. Pass user values as $1, $2, … parameters — never build SQL from a variable, concatenation, or interpolation."@, line)
}

pub(crate) fn sql_literal(m: &str, line: usize) -> (r: Report)
    ensures
        r@ == sql_literal_diag(m@, line as nat),
{
    Report::one("R23 sql-literal", cat3("`db.", m, "(...)` requires a string-literal query. Pass user values as $1, $2, … parameters — never build SQL from a variable, concatenation, or interpolation."), line)
}

/// What rule `R26 egress-allowlist` reports here.
pub open spec fn endpoint_env_diag(f: Seq<char>, env: Seq<char>, line: nat) -> Seq<DiagView> {
    found("R26 egress-allowlist"@, "an `endpoint` call runs in `"@ + f + "`, which is "@ + env + ". Outbound HTTP is server-only — the host and its secret cannot reach the browser."@, line)
}

pub(crate) fn endpoint_env(f: &str, env: &str, line: usize) -> (r: Report)
    ensures
        r@ == endpoint_env_diag(f@, env@, line as nat),
{
    Report::one("R26 egress-allowlist", cat5("an `endpoint` call runs in `", f, "`, which is ", env, ". Outbound HTTP is server-only — the host and its secret cannot reach the browser."), line)
}

/// What rule `R26 egress-allowlist` reports here.
pub open spec fn endpoint_verb_diag(m: Seq<char>, line: nat) -> Seq<DiagView> {
    found("R26 egress-allowlist"@, "an `endpoint` has no verb `"@ + m + "` (use get, post)."@, line)
}

pub(crate) fn endpoint_verb(m: &str, line: usize) -> (r: Report)
    ensures
        r@ == endpoint_verb_diag(m@, line as nat),
{
    Report::one("R26 egress-allowlist", cat3("an `endpoint` has no verb `", m, "` (use get, post)."), line)
}

/// What rule `R26 egress-allowlist` reports here.
pub open spec fn endpoint_path_diag(line: nat) -> Seq<DiagView> {
    found("R26 egress-allowlist"@, "an `endpoint` path must be a string literal — the host is fixed by `base`, and only a literal path may be appended."@, line)
}

pub(crate) fn endpoint_path(line: usize) -> (r: Report)
    ensures
        r@ == endpoint_path_diag(line as nat),
{
    Report::one("R26 egress-allowlist", "an `endpoint` path must be a string literal — the host is fixed by `base`, and only a literal path may be appended.".to_owned(), line)
}

/// What rule `R26 egress-allowlist` reports here.
pub open spec fn endpoint_arity_diag(m: Seq<char>, n: Seq<char>, more: Seq<char>, line: nat) -> Seq<DiagView> {
    found("R26 egress-allowlist"@, "`endpoint."@ + m + "(...)` takes "@ + n + " argument(s) (path"@ + more + ")."@, line)
}

pub(crate) fn endpoint_arity(m: &str, n: &str, more: &str, line: usize) -> (r: Report)
    ensures
        r@ == endpoint_arity_diag(m@, n@, more@, line as nat),
{
    Report::one("R26 egress-allowlist", cat7("`endpoint.", m, "(...)` takes ", n, " argument(s) (path", more, ")."), line)
}

/// What rule `R27 log` reports here.
pub open spec fn log_env_diag(f: Seq<char>, env: Seq<char>, line: nat) -> Seq<DiagView> {
    found("R27 log"@, "`log` is a server-only capability; `"@ + f + "` runs "@ + env + "."@, line)
}

pub(crate) fn log_env(f: &str, env: &str, line: usize) -> (r: Report)
    ensures
        r@ == log_env_diag(f@, env@, line as nat),
{
    Report::one("R27 log", cat5("`log` is a server-only capability; `", f, "` runs ", env, "."), line)
}

/// What rule `R27 log` reports here.
pub open spec fn log_method_diag(m: Seq<char>, line: nat) -> Seq<DiagView> {
    found("R27 log"@, "`log` has no method `"@ + m + "` (use info, warn, error)."@, line)
}

pub(crate) fn log_method(m: &str, line: usize) -> (r: Report)
    ensures
        r@ == log_method_diag(m@, line as nat),
{
    Report::one("R27 log", cat3("`log` has no method `", m, "` (use info, warn, error)."), line)
}

/// What rule `R27 log` reports here.
pub open spec fn log_arity_diag(m: Seq<char>, line: nat) -> Seq<DiagView> {
    found("R27 log"@, "`log."@ + m + "(...)` takes one message argument."@, line)
}

pub(crate) fn log_arity(m: &str, line: usize) -> (r: Report)
    ensures
        r@ == log_arity_diag(m@, line as nat),
{
    Report::one("R27 log", cat3("`log.", m, "(...)` takes one message argument."), line)
}

/// What rule `R27 log` reports here.
pub open spec fn log_secret_diag(m: Seq<char>, f: Seq<char>, line: nat) -> Seq<DiagView> {
    found("R27 log"@, "a secret value is passed to `log."@ + m + "` in `"@ + f + "`. Logging a credential is forbidden — use `declassify(...)` to release a value deliberately."@, line)
}

pub(crate) fn log_secret(m: &str, f: &str, line: usize) -> (r: Report)
    ensures
        r@ == log_secret_diag(m@, f@, line as nat),
{
    Report::one("R27 log", cat5("a secret value is passed to `log.", m, "` in `", f, "`. Logging a credential is forbidden — use `declassify(...)` to release a value deliberately."), line)
}

/// What rule `R24 authn-required` reports here.
pub open spec fn session_env_diag(f: Seq<char>, env: Seq<char>, line: nat) -> Seq<DiagView> {
    found("R24 authn-required"@, "`session` is a server-only capability; `"@ + f + "` runs "@ + env + ". The actor and signing key cannot reach the browser."@, line)
}

pub(crate) fn session_env(f: &str, env: &str, line: usize) -> (r: Report)
    ensures
        r@ == session_env_diag(f@, env@, line as nat),
{
    Report::one("R24 authn-required", cat5("`session` is a server-only capability; `", f, "` runs ", env, ". The actor and signing key cannot reach the browser."), line)
}

/// What rule `R24 authn-required` reports here.
pub open spec fn session_member_diag(m: Seq<char>, line: nat) -> Seq<DiagView> {
    found("R24 authn-required"@, "`session` has no member `"@ + m + "` (use actor, login, logout)."@, line)
}

pub(crate) fn session_member(m: &str, line: usize) -> (r: Report)
    ensures
        r@ == session_member_diag(m@, line as nat),
{
    Report::one("R24 authn-required", cat3("`session` has no member `", m, "` (use actor, login, logout)."), line)
}

/// What rule `R24 authn-required` reports here.
pub open spec fn session_arity_diag(m: Seq<char>, n: Seq<char>, line: nat) -> Seq<DiagView> {
    found("R24 authn-required"@, "`session."@ + m + "(...)` takes "@ + n + " argument(s)."@, line)
}

pub(crate) fn session_arity(m: &str, n: &str, line: usize) -> (r: Report)
    ensures
        r@ == session_arity_diag(m@, n@, line as nat),
{
    Report::one("R24 authn-required", cat5("`session.", m, "(...)` takes ", n, " argument(s)."), line)
}

/// What rule `R24 authn-required` reports here.
pub open spec fn auth_fn_env_diag(f: Seq<char>, env: Seq<char>, line: nat) -> Seq<DiagView> {
    found("R24 authn-required"@, "`auth` is a server-only modifier, but `"@ + f + "` runs "@ + env + "."@, line)
}

pub(crate) fn auth_fn_env(f: &str, env: &str, line: usize) -> (r: Report)
    ensures
        r@ == auth_fn_env_diag(f@, env@, line as nat),
{
    Report::one("R24 authn-required", cat5("`auth` is a server-only modifier, but `", f, "` runs ", env, "."), line)
}

/// What rule `R24 authn-required` reports here.
pub open spec fn auth_fn_session_diag(f: Seq<char>, line: nat) -> Seq<DiagView> {
    found("R24 authn-required"@, "`auth fn "@ + f + "` never consults `session`. Read `session.actor` to authenticate the caller — an `auth` fn that ignores the session is the 'forgot the auth check' bug."@, line)
}

pub(crate) fn auth_fn_session(f: &str, line: usize) -> (r: Report)
    ensures
        r@ == auth_fn_session_diag(f@, line as nat),
{
    Report::one("R24 authn-required", cat3("`auth fn ", f, "` never consults `session`. Read `session.actor` to authenticate the caller — an `auth` fn that ignores the session is the 'forgot the auth check' bug."), line)
}

/// What rule `R25 actor-scope` reports here.
pub open spec fn actor_scope_diag(m: Seq<char>, f: Seq<char>, line: nat) -> Seq<DiagView> {
    found("R25 actor-scope"@, "`db."@ + m + "` in `auth fn "@ + f + "` binds a caller-supplied value but not `session.actor`. Add an ownership predicate bound to the actor (e.g. `… where id = $1 and owner = $2`, …, session.actor) — a protected query scoped only by a caller id is an IDOR."@, line)
}

pub(crate) fn actor_scope(m: &str, f: &str, line: usize) -> (r: Report)
    ensures
        r@ == actor_scope_diag(m@, f@, line as nat),
{
    Report::one("R25 actor-scope", cat5("`db.", m, "` in `auth fn ", f, "` binds a caller-supplied value but not `session.actor`. Add an ownership predicate bound to the actor (e.g. `… where id = $1 and owner = $2`, …, session.actor) — a protected query scoped only by a caller id is an IDOR."), line)
}

/// What rule `R21 stdlib` reports here.
pub open spec fn string_receiver_diag(m: Seq<char>, f: Seq<char>, t: Seq<char>, line: nat) -> Seq<DiagView> {
    found("R21 stdlib"@, "`."@ + m + "()` is a String method, but the receiver in `"@ + f + "` is `"@ + t + "`."@, line)
}

pub(crate) fn string_receiver(m: &str, f: &str, t: &str, line: usize) -> (r: Report)
    ensures
        r@ == string_receiver_diag(m@, f@, t@, line as nat),
{
    Report::one("R21 stdlib", cat7("`.", m, "()` is a String method, but the receiver in `", f, "` is `", t, "`."), line)
}

/// What rule `R21 stdlib` reports here.
pub open spec fn string_arity_diag(m: Seq<char>, n: Seq<char>, line: nat) -> Seq<DiagView> {
    found("R21 stdlib"@, "`."@ + m + "()` takes "@ + n + " argument(s)."@, line)
}

pub(crate) fn string_arity(m: &str, n: &str, line: usize) -> (r: Report)
    ensures
        r@ == string_arity_diag(m@, n@, line as nat),
{
    Report::one("R21 stdlib", cat5("`.", m, "()` takes ", n, " argument(s)."), line)
}

/// What rule `R21 stdlib` reports here.
pub open spec fn list_arity_diag(m: Seq<char>, n: Seq<char>, line: nat) -> Seq<DiagView> {
    found("R21 stdlib"@, "`."@ + m + "()` on a list takes "@ + n + " argument(s)."@, line)
}

pub(crate) fn list_arity(m: &str, n: &str, line: usize) -> (r: Report)
    ensures
        r@ == list_arity_diag(m@, n@, line as nat),
{
    Report::one("R21 stdlib", cat5("`.", m, "()` on a list takes ", n, " argument(s)."), line)
}

/// What rule `R21 stdlib` reports here.
pub open spec fn list_at_diag(t: Seq<char>, f: Seq<char>, line: nat) -> Seq<DiagView> {
    found("R21 stdlib"@, "`.at(i)` index must be `Int`, got `"@ + t + "` in `"@ + f + "`."@, line)
}

pub(crate) fn list_at(t: &str, f: &str, line: usize) -> (r: Report)
    ensures
        r@ == list_at_diag(t@, f@, line as nat),
{
    Report::one("R21 stdlib", cat5("`.at(i)` index must be `Int`, got `", t, "` in `", f, "`."), line)
}

/// What rule `R12 collection-method` reports here.
pub open spec fn not_collection_diag(line: nat) -> Seq<DiagView> {
    found("R12 collection-method"@, "methods may only be called on `synced` collections."@, line)
}

pub(crate) fn not_collection(line: usize) -> (r: Report)
    ensures
        r@ == not_collection_diag(line as nat),
{
    Report::one("R12 collection-method", "methods may only be called on `synced` collections.".to_owned(), line)
}

/// What rule `R12 collection-method` reports here.
pub open spec fn collection_server_diag(f: Seq<char>, line: nat) -> Seq<DiagView> {
    found("R12 collection-method"@, "`"@ + f + "` runs server-side; synced collections are client-side only."@, line)
}

pub(crate) fn collection_server(f: &str, line: usize) -> (r: Report)
    ensures
        r@ == collection_server_diag(f@, line as nat),
{
    Report::one("R12 collection-method", cat3("`", f, "` runs server-side; synced collections are client-side only."), line)
}

/// What rule `R12 collection-method` reports here.
pub open spec fn collection_no_method_diag(c: Seq<char>, m: Seq<char>, line: nat) -> Seq<DiagView> {
    found("R12 collection-method"@, "collection `"@ + c + "` has no method `"@ + m + "` (use add, remove, get, all)."@, line)
}

pub(crate) fn collection_no_method(c: &str, m: &str, line: usize) -> (r: Report)
    ensures
        r@ == collection_no_method_diag(c@, m@, line as nat),
{
    Report::one("R12 collection-method", cat5("collection `", c, "` has no method `", m, "` (use add, remove, get, all)."), line)
}

/// What rule `R12 collection-method` reports here.
pub open spec fn collection_arity_diag(c: Seq<char>, m: Seq<char>, line: nat) -> Seq<DiagView> {
    found("R12 collection-method"@, "`"@ + c + "."@ + m + "` takes exactly one argument."@, line)
}

pub(crate) fn collection_arity(c: &str, m: &str, line: usize) -> (r: Report)
    ensures
        r@ == collection_arity_diag(c@, m@, line as nat),
{
    Report::one("R12 collection-method", cat5("`", c, ".", m, "` takes exactly one argument."), line)
}

/// What rule `R12 collection-method` reports here.
pub open spec fn collection_arg_diag(c: Seq<char>, m: Seq<char>, t: Seq<char>, actual: Seq<char>, line: nat) -> Seq<DiagView> {
    found("R12 collection-method"@, "`"@ + c + "."@ + m + "` expects `"@ + t + "`, got `"@ + actual + "`."@, line)
}

pub(crate) fn collection_arg(c: &str, m: &str, t: &str, actual: &str, line: usize) -> (r: Report)
    ensures
        r@ == collection_arg_diag(c@, m@, t@, actual@, line as nat),
{
    Report::one("R12 collection-method", cat9("`", c, ".", m, "` expects `", t, "`, got `", actual, "`."), line)
}

/// What rule `R4 async-call-discipline` reports here.
pub open spec fn await_context_diag(f: Seq<char>, line: nat) -> Seq<DiagView> {
    found("R4 async-call-discipline"@, "`await` in `"@ + f + "` is only valid in ui/screen code."@, line)
}

pub(crate) fn await_context(f: &str, line: usize) -> (r: Report)
    ensures
        r@ == await_context_diag(f@, line as nat),
{
    Report::one("R4 async-call-discipline", cat3("`await` in `", f, "` is only valid in ui/screen code."), line)
}

/// What rule `R4 async-call-discipline` reports here.
pub open spec fn await_missing_diag(c: Seq<char>, line: nat) -> Seq<DiagView> {
    found("R4 async-call-discipline"@, "`"@ + c + "` is a server fn; calling it from the browser is an async RPC — use `await "@ + c + "(...)`."@, line)
}

pub(crate) fn await_missing(c: &str, line: usize) -> (r: Report)
    ensures
        r@ == await_missing_diag(c@, line as nat),
{
    Report::one("R4 async-call-discipline", cat5("`", c, "` is a server fn; calling it from the browser is an async RPC — use `await ", c, "(...)`."), line)
}

/// What rule `R33 transaction` reports here.
pub open spec fn transaction_env_diag(f: Seq<char>, env: Seq<char>, line: nat) -> Seq<DiagView> {
    found("R33 transaction"@, "`transaction` is a server-only block; `"@ + f + "` runs "@ + env + "."@, line)
}

pub(crate) fn transaction_env(f: &str, env: &str, line: usize) -> (r: Report)
    ensures
        r@ == transaction_env_diag(f@, env@, line as nat),
{
    Report::one("R33 transaction", cat5("`transaction` is a server-only block; `", f, "` runs ", env, "."), line)
}

/// What rule `R2 duplicate-decl` reports here.
pub open spec fn token_twice_diag(name: Seq<char>, which: Seq<char>, line: nat) -> Seq<DiagView> {
    found("R2 duplicate-decl"@, "theme token `"@ + name + "` is declared more than once in the "@ + which + " theme."@, line)
}

pub(crate) fn token_twice(name: &str, which: &str, line: usize) -> (r: Report)
    ensures
        r@ == token_twice_diag(name@, which@, line as nat),
{
    Report::one("R2 duplicate-decl", cat5("theme token `", name, "` is declared more than once in the ", which, " theme."), line)
}

/// What rule `R2 duplicate-decl` reports here.
pub open spec fn style_twice_diag(name: Seq<char>, line: nat) -> Seq<DiagView> {
    found("R2 duplicate-decl"@, "style `"@ + name + "` is declared more than once."@, line)
}

pub(crate) fn style_twice(name: &str, line: usize) -> (r: Report)
    ensures
        r@ == style_twice_diag(name@, line as nat),
{
    Report::one("R2 duplicate-decl", cat3("style `", name, "` is declared more than once."), line)
}

/// What rule `R2 duplicate-decl` reports here.
pub open spec fn endpoint_twice_diag(name: Seq<char>, line: nat) -> Seq<DiagView> {
    found("R2 duplicate-decl"@, "endpoint `"@ + name + "` is declared more than once."@, line)
}

pub(crate) fn endpoint_twice(name: &str, line: usize) -> (r: Report)
    ensures
        r@ == endpoint_twice_diag(name@, line as nat),
{
    Report::one("R2 duplicate-decl", cat3("endpoint `", name, "` is declared more than once."), line)
}

/// What rule `R2 duplicate-decl` reports here.
pub open spec fn type_twice_diag(name: Seq<char>, line: nat) -> Seq<DiagView> {
    found("R2 duplicate-decl"@, "type `"@ + name + "` is declared more than once."@, line)
}

pub(crate) fn type_twice(name: &str, line: usize) -> (r: Report)
    ensures
        r@ == type_twice_diag(name@, line as nat),
{
    Report::one("R2 duplicate-decl", cat3("type `", name, "` is declared more than once."), line)
}

/// What rule `R2 duplicate-decl` reports here.
pub open spec fn variant_twice_diag(v: Seq<char>, name: Seq<char>, line: nat) -> Seq<DiagView> {
    found("R2 duplicate-decl"@, "variant `"@ + v + "` is declared twice in enum `"@ + name + "`."@, line)
}

pub(crate) fn variant_twice(v: &str, name: &str, line: usize) -> (r: Report)
    ensures
        r@ == variant_twice_diag(v@, name@, line as nat),
{
    Report::one("R2 duplicate-decl", cat5("variant `", v, "` is declared twice in enum `", name, "`."), line)
}

/// What rule `R2 duplicate-decl` reports here.
pub open spec fn screen_twice_diag(kind: Seq<char>, name: Seq<char>, line: nat) -> Seq<DiagView> {
    found("R2 duplicate-decl"@, kind + " `"@ + name + "` is declared more than once."@, line)
}

pub(crate) fn screen_twice(kind: &str, name: &str, line: usize) -> (r: Report)
    ensures
        r@ == screen_twice_diag(kind@, name@, line as nat),
{
    Report::one("R2 duplicate-decl", cat4(kind, " `", name, "` is declared more than once."), line)
}

/// What rule `R2 duplicate-decl` reports here.
pub open spec fn model_twice_diag(name: Seq<char>, line: nat) -> Seq<DiagView> {
    found("R2 duplicate-decl"@, "model `"@ + name + "` is declared more than once."@, line)
}

pub(crate) fn model_twice(name: &str, line: usize) -> (r: Report)
    ensures
        r@ == model_twice_diag(name@, line as nat),
{
    Report::one("R2 duplicate-decl", cat3("model `", name, "` is declared more than once."), line)
}

/// What rule `R2 duplicate-decl` reports here.
pub open spec fn model_field_twice_diag(f: Seq<char>, name: Seq<char>, line: nat) -> Seq<DiagView> {
    found("R2 duplicate-decl"@, "field `"@ + f + "` is declared twice in model `"@ + name + "`."@, line)
}

pub(crate) fn model_field_twice(f: &str, name: &str, line: usize) -> (r: Report)
    ensures
        r@ == model_field_twice_diag(f@, name@, line as nat),
{
    Report::one("R2 duplicate-decl", cat5("field `", f, "` is declared twice in model `", name, "`."), line)
}

/// What rule `R2 duplicate-decl` reports here.
pub open spec fn function_twice_diag(name: Seq<char>, line: nat) -> Seq<DiagView> {
    found("R2 duplicate-decl"@, "function `"@ + name + "` is declared more than once."@, line)
}

pub(crate) fn function_twice(name: &str, line: usize) -> (r: Report)
    ensures
        r@ == function_twice_diag(name@, line as nat),
{
    Report::one("R2 duplicate-decl", cat3("function `", name, "` is declared more than once."), line)
}

/// What rule `R10 sync-key` reports here.
pub open spec fn sync_key_diag(name: Seq<char>, m: Seq<char>, line: nat) -> Seq<DiagView> {
    found("R10 sync-key"@, "synced collection `"@ + name + "` requires model `"@ + m + "` to have an `id: String` field (the merge key)."@, line)
}

pub(crate) fn sync_key(name: &str, m: &str, line: usize) -> (r: Report)
    ensures
        r@ == sync_key_diag(name@, m@, line as nat),
{
    Report::one("R10 sync-key", cat5("synced collection `", name, "` requires model `", m, "` to have an `id: String` field (the merge key)."), line)
}

/// What rule `R31 auth-route` reports here.
pub open spec fn auth_component_diag(s: Seq<char>, line: nat) -> Seq<DiagView> {
    found("R31 auth-route"@, "`auth` marks a protected route; it can't be used on component `"@ + s + "`."@, line)
}

pub(crate) fn auth_component(s: &str, line: usize) -> (r: Report)
    ensures
        r@ == auth_component_diag(s@, line as nat),
{
    Report::one("R31 auth-route", cat3("`auth` marks a protected route; it can't be used on component `", s, "`."), line)
}

/// What rule `R31 auth-route` reports here.
pub open spec fn auth_props_diag(s: Seq<char>, line: nat) -> Seq<DiagView> {
    found("R31 auth-route"@, "an `auth` screen must be a prop-less route; `"@ + s + "` takes props."@, line)
}

pub(crate) fn auth_props(s: &str, line: usize) -> (r: Report)
    ensures
        r@ == auth_props_diag(s@, line as nat),
{
    Report::one("R31 auth-route", cat3("an `auth` screen must be a prop-less route; `", s, "` takes props."), line)
}

/// What rule `R31 auth-route` reports here.
pub open spec fn auth_session_diag(s: Seq<char>, line: nat) -> Seq<DiagView> {
    found("R31 auth-route"@, "`auth ui screen "@ + s + "` needs a session, but no function establishes one (call `session.login(...)` in an `auth server fn`)."@, line)
}

pub(crate) fn auth_session(s: &str, line: usize) -> (r: Report)
    ensures
        r@ == auth_session_diag(s@, line as nat),
{
    Report::one("R31 auth-route", cat3("`auth ui screen ", s, "` needs a session, but no function establishes one (call `session.login(...)` in an `auth server fn`)."), line)
}

/// What rule `R31 auth-route` reports here.
pub open spec fn auth_root_diag(s: Seq<char>, line: nat) -> Seq<DiagView> {
    found("R31 auth-route"@, "the default route `"@ + s + "` must be public so unauthenticated users have a landing/login page — mark a different screen `auth`."@, line)
}

pub(crate) fn auth_root(s: &str, line: usize) -> (r: Report)
    ensures
        r@ == auth_root_diag(s@, line as nat),
{
    Report::one("R31 auth-route", cat3("the default route `", s, "` must be public so unauthenticated users have a landing/login page — mark a different screen `auth`."), line)
}

/// What rule `R5 secret-leak-via-return` reports here.
pub open spec fn leak_env_diag(f: Seq<char>, env: Seq<char>, line: nat) -> Seq<DiagView> {
    found("R5 secret-leak-via-return"@, "`"@ + f + "` returns secret-derived data but runs "@ + env + ". Only `server` functions may return secret data; use `declassify(...)` server-side if release is intended."@, line)
}

pub(crate) fn leak_env(f: &str, env: &str, line: usize) -> (r: Report)
    ensures
        r@ == leak_env_diag(f@, env@, line as nat),
{
    Report::one("R5 secret-leak-via-return", cat5("`", f, "` returns secret-derived data but runs ", env, ". Only `server` functions may return secret data; use `declassify(...)` server-side if release is intended."), line)
}

/// What rule `R5 secret-leak-via-return` reports here.
pub open spec fn leak_scalar_diag(f: Seq<char>, t: Seq<char>, line: nat) -> Seq<DiagView> {
    found("R5 secret-leak-via-return"@, "server fn `"@ + f + "` returns a bare `"@ + t + "` built from a secret field, with no `declassify(...)`. A Model return gets its `secret` fields stripped automatically on the wire; a scalar return doesn't, so this value would reach any RPC caller as plain text. Wrap it in `declassify(...)` to confirm the release is deliberate."@, line)
}

pub(crate) fn leak_scalar(f: &str, t: &str, line: usize) -> (r: Report)
    ensures
        r@ == leak_scalar_diag(f@, t@, line as nat),
{
    Report::one("R5 secret-leak-via-return", cat5("server fn `", f, "` returns a bare `", t, "` built from a secret field, with no `declassify(...)`. A Model return gets its `secret` fields stripped automatically on the wire; a scalar return doesn't, so this value would reach any RPC caller as plain text. Wrap it in `declassify(...)` to confirm the release is deliberate."), line)
}

/// What rule `R37 unknown-token` reports here.
pub open spec fn unknown_token_diag(name: Seq<char>, line: nat) -> Seq<DiagView> {
    found("R37 unknown-token"@, "`token("@ + name + ")` refers to a design token that no theme declares."@, line)
}

pub(crate) fn unknown_token(name: &str, line: usize) -> (r: Report)
    ensures
        r@ == unknown_token_diag(name@, line as nat),
{
    Report::one("R37 unknown-token", cat3("`token(", name, ")` refers to a design token that no theme declares."), line)
}

/// What rule `R37 unknown-token` reports here.
pub open spec fn unknown_style_diag(name: Seq<char>, line: nat) -> Seq<DiagView> {
    found("R37 unknown-token"@, "`style "@ + name + "` refers to a named style that is not declared."@, line)
}

pub(crate) fn unknown_style(name: &str, line: usize) -> (r: Report)
    ensures
        r@ == unknown_style_diag(name@, line as nat),
{
    Report::one("R37 unknown-token", cat3("`style ", name, "` refers to a named style that is not declared."), line)
}

} // verus!
