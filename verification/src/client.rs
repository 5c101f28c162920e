//! The browser tier: model interfaces without their secret fields, remote-call stubs for server
//! functions, `ui` functions, screens, synced collections and the client router.
use vstd::prelude::*;
use vstd::string::*;

use crate::ast::{
    EndpointNode, EnumNode, EnvModifier, FunctionNode, ModelNode, Param, PropertyNode, ScreenNode,
    StateNode, StyleNode, SyncedStateNode, XeresProgram,
};
use crate::css::{build_token_map, themes_map};
use crate::emit::{emit_expr, expr_text};
use crate::emit_handler::{emit_h_block, h_block_text};
use crate::emit_stmt::{emit_stmt, stmt_text};
use crate::emit_view::{loop_view, nodes_out, EnvView, LoopCtx, LoopView, ScreenEmit, ViewEnv};
use crate::runtime::{Runtime, ROUTER_RUNTIME, RPC_RUNTIME, UID_FN};
use crate::scan::{split_char, split_on};
use crate::strmap::StrMap;
use crate::text::{
    cat10, cat11, cat12, cat13, cat2, cat3, cat4, cat5, cat6, cat7, cat8, join_text, same, Parts,
};
use crate::types::{map_ts_type, ts_type};
use crate::unicode::{debug_text, lower_text, lowercase, quoted};
use crate::uses::{stmts_have_await, stmts_use_spec, uses_decimal, uses_decimal_spec, Feature};

verus! {

/// The names of a list of parameters.
pub open spec fn param_names(ps: Seq<Param>) -> Seq<Seq<char>> {
    Seq::new(ps.len(), |i: int| ps[i].name@)
}

/// The names of a screen's cells.
pub open spec fn cell_names(ss: Seq<StateNode>) -> Seq<Seq<char>> {
    Seq::new(ss.len(), |i: int| ss[i].name@)
}

/// The names of the synced collections.
pub open spec fn synced_names(ss: Seq<SyncedStateNode>) -> Seq<Seq<char>> {
    Seq::new(ss.len(), |i: int| ss[i].name@)
}

/// The names of the named styles.
pub open spec fn style_names(ss: Seq<StyleNode>) -> Seq<Seq<char>> {
    Seq::new(ss.len(), |i: int| ss[i].name@)
}

/// The names of the endpoints.
pub open spec fn endpoint_names(es: Seq<EndpointNode>) -> Seq<Seq<char>> {
    Seq::new(es.len(), |i: int| es[i].name@)
}

/// The parameter names of each component among the first `n` screens; a later one wins.
pub open spec fn components_map(screens: Seq<ScreenNode>, n: int) -> Map<Seq<char>, Seq<Seq<char>>>
    decreases n,
{
    if n <= 0 || n > screens.len() {
        Map::empty()
    } else if screens[n - 1].is_component {
        components_map(screens, n - 1).insert(
            screens[n - 1].name@,
            param_names(screens[n - 1].params@),
        )
    } else {
        components_map(screens, n - 1)
    }
}

/// What a screen of a program is printed against.
pub open spec fn env_of(p: XeresProgram, sc: ScreenNode) -> EnvView {
    EnvView {
        screen: sc.name@,
        state_vars: cell_names(sc.states@),
        synced: synced_names(p.states@),
        components: components_map(p.screens@, p.screens@.len() as int),
        tokens: themes_map(p.themes@, p.themes@.len() as int),
        named_styles: style_names(p.styles@),
        endpoints: endpoint_names(p.endpoints@),
    }
}

/// The names of a list of parameters.
pub fn param_parts(ps: &Vec<Param>) -> (r: Parts)
    ensures
        r@ == param_names(ps@),
{
    let mut out = Parts::new();
    let mut i: usize = 0;
    while i < ps.len()
        invariant
            i <= ps.len(),
            out@ =~= param_names(ps@).take(i as int),
        decreases ps.len() - i,
    {
        out.push(ps[i].name.clone());
        i = i + 1;
    }
    out
}

fn cell_parts(ss: &Vec<StateNode>) -> (r: Parts)
    ensures
        r@ == cell_names(ss@),
{
    let mut out = Parts::new();
    let mut i: usize = 0;
    while i < ss.len()
        invariant
            i <= ss.len(),
            out@ =~= cell_names(ss@).take(i as int),
        decreases ss.len() - i,
    {
        out.push(ss[i].name.clone());
        i = i + 1;
    }
    out
}

fn synced_parts(ss: &Vec<SyncedStateNode>) -> (r: Parts)
    ensures
        r@ == synced_names(ss@),
{
    let mut out = Parts::new();
    let mut i: usize = 0;
    while i < ss.len()
        invariant
            i <= ss.len(),
            out@ =~= synced_names(ss@).take(i as int),
        decreases ss.len() - i,
    {
        out.push(ss[i].name.clone());
        i = i + 1;
    }
    out
}

fn style_parts(ss: &Vec<StyleNode>) -> (r: Parts)
    ensures
        r@ == style_names(ss@),
{
    let mut out = Parts::new();
    let mut i: usize = 0;
    while i < ss.len()
        invariant
            i <= ss.len(),
            out@ =~= style_names(ss@).take(i as int),
        decreases ss.len() - i,
    {
        out.push(ss[i].name.clone());
        i = i + 1;
    }
    out
}

/// The names of the endpoints.
pub fn endpoint_parts(es: &Vec<EndpointNode>) -> (r: Parts)
    ensures
        r@ == endpoint_names(es@),
{
    let mut out = Parts::new();
    let mut i: usize = 0;
    while i < es.len()
        invariant
            i <= es.len(),
            out@ =~= endpoint_names(es@).take(i as int),
        decreases es.len() - i,
    {
        out.push(es[i].name.clone());
        i = i + 1;
    }
    out
}

fn component_map(screens: &Vec<ScreenNode>) -> (r: StrMap<Parts>)
    ensures
        r@ == components_map(screens@, screens@.len() as int),
{
    let mut out: StrMap<Parts> = StrMap::new();
    let mut i: usize = 0;
    while i < screens.len()
        invariant
            i <= screens.len(),
            out@ == components_map(screens@, i as int),
        decreases screens.len() - i,
    {
        if screens[i].is_component {
            out.insert(screens[i].name.clone(), param_parts(&screens[i].params));
        }
        i = i + 1;
    }
    out
}

fn view_env(p: &XeresProgram, sc: &ScreenNode) -> (r: ViewEnv)
    ensures
        r@ == env_of(*p, *sc),
{
    ViewEnv {
        screen: sc.name.clone(),
        state_vars: cell_parts(&sc.states),
        synced: synced_parts(&p.states),
        components: component_map(&p.screens),
        tokens: build_token_map(&p.themes),
        named_styles: style_parts(&p.styles),
        endpoints: endpoint_parts(&p.endpoints),
    }
}

/// The first `n` parameters as TypeScript declarations.
pub open spec fn ts_params(ps: Seq<Param>, n: int) -> Seq<Seq<char>>
    decreases n,
{
    if n <= 0 || n > ps.len() {
        Seq::empty()
    } else {
        ts_params(ps, n - 1).push(ps[n - 1].name@ + ": "@ + ts_type(ps[n - 1].ty@))
    }
}

/// A TypeScript parameter list.
pub open spec fn ts_params_text(ps: Seq<Param>) -> Seq<char> {
    join_text(ts_params(ps, ps.len() as int), ", "@)
}

fn emit_ts_params(ps: &Vec<Param>) -> (r: String)
    ensures
        r@ == ts_params_text(ps@),
{
    let mut out = Parts::new();
    let mut i: usize = 0;
    while i < ps.len()
        invariant
            i <= ps.len(),
            out@ == ts_params(ps@, i as int),
        decreases ps.len() - i,
    {
        out.push(cat3(&ps[i].name, ": ", &map_ts_type(&ps[i].ty)));
        i = i + 1;
    }
    out.join(", ")
}

/// The first `n` cells with their initial values.
pub open spec fn cell_inits(ss: Seq<StateNode>, n: int, eps: Seq<Seq<char>>) -> Seq<Seq<char>>
    decreases n,
{
    if n <= 0 || n > ss.len() {
        Seq::empty()
    } else {
        cell_inits(ss, n - 1, eps).push(
            ss[n - 1].name@ + ": "@ + expr_text(ss[n - 1].init, true, eps),
        )
    }
}

/// The state object of a screen, or nothing where it has no cells.
pub open spec fn state_decl_text(sc: ScreenNode, eps: Seq<Seq<char>>) -> Seq<char> {
    if sc.states@.len() == 0 {
        ""@
    } else {
        "const "@ + sc.name@ + "_state = { "@ + join_text(
            cell_inits(sc.states@, sc.states@.len() as int, eps),
            ", "@,
        ) + " };\n"@
    }
}

/// Whether a screen takes its parameters from the URL.
pub open spec fn is_param_screen(sc: ScreenNode) -> bool {
    sc.route is Some && !sc.is_component
}

/// The reads of the first `n` route parameters, coerced by type.
pub open spec fn param_reads(ps: Seq<Param>, n: int) -> Seq<char>
    decreases n,
{
    if n <= 0 || n > ps.len() {
        Seq::empty()
    } else {
        param_reads(ps, n - 1) + "  const "@ + ps[n - 1].name@ + " = "@ + (if ps[n - 1].ty@
            == "Int"@ {
            "Number(__params["@ + debug_text(ps[n - 1].name@) + "])"@
        } else {
            "__params["@ + debug_text(ps[n - 1].name@) + "]"@
        }) + ";\n"@
    }
}

/// What a screen's functions read from the URL before anything else.
pub open spec fn reads_text(sc: ScreenNode) -> Seq<char> {
    if is_param_screen(sc) {
        param_reads(sc.params@, sc.params@.len() as int)
    } else {
        ""@
    }
}

/// The parameters of a screen's render function.
pub open spec fn props_text(sc: ScreenNode) -> Seq<char> {
    if is_param_screen(sc) {
        ""@
    } else {
        ts_params_text(sc.params@)
    }
}

/// The destructuring of a screen's cells, or nothing where it has none.
pub open spec fn destructure_text(sc: ScreenNode) -> Seq<char> {
    if sc.states@.len() == 0 {
        ""@
    } else {
        "  const { "@ + join_text(cell_names(sc.states@), ", "@) + " } = "@ + sc.name@
            + "_state;\n"@
    }
}

/// The loader of a screen with an `on load` block, or nothing.
pub open spec fn loader_text(sc: ScreenNode) -> Seq<char> {
    if sc.load@.len() == 0 {
        ""@
    } else {
        "export async function "@ + sc.name@ + "__load(): Promise<void> {\n"@ + reads_text(sc)
            + "  "@ + h_block_text(sc.load@, "\n  "@, sc.name@, cell_names(sc.states@))
            + "\n  if (__draw) __draw();\n}\n\n"@
    }
}

/// One screen: its state object, its handlers, its render function and its loader.
pub open spec fn screen_text(sc: ScreenNode, env: EnvView) -> Seq<char> {
    let out = nodes_out(sc.body@, env, None, ""@, 0);
    state_decl_text(sc, env.endpoints) + out.handlers + "export function "@ + sc.name@ + "("@
        + props_text(sc) + "): string {\n"@ + reads_text(sc) + destructure_text(sc) + "  return "@
        + out.text + ";\n}\n\n"@ + loader_text(sc)
}

fn emit_param_reads(ps: &Vec<Param>) -> (r: String)
    ensures
        r@ == param_reads(ps@, ps@.len() as int),
{
    let mut out: String = String::new();
    let mut i: usize = 0;
    while i < ps.len()
        invariant
            i <= ps.len(),
            out@ == param_reads(ps@, i as int),
        decreases ps.len() - i,
    {
        let q = quoted(&ps[i].name);
        let v = if same(&ps[i].ty, "Int") {
            cat3("Number(__params[", &q, "])")
        } else {
            cat3("__params[", &q, "]")
        };
        out = cat6(&out, "  const ", &ps[i].name, " = ", &v, ";\n");
        i = i + 1;
    }
    out
}

fn emit_state_decl(sc: &ScreenNode, eps: &Parts) -> (r: String)
    ensures
        r@ == state_decl_text(*sc, eps@),
{
    if sc.states.len() == 0 {
        return "".to_owned();
    }
    let mut out = Parts::new();
    let mut i: usize = 0;
    while i < sc.states.len()
        invariant
            i <= sc.states.len(),
            out@ == cell_inits(sc.states@, i as int, eps@),
        decreases sc.states.len() - i,
    {
        let v = emit_expr(&sc.states[i].init, true, eps);
        out.push(cat3(&sc.states[i].name, ": ", &v));
        i = i + 1;
    }
    cat5("const ", &sc.name, "_state = { ", &out.join(", "), " };\n")
}

/// Generates one screen or component.
pub fn gen_screen(sc: &ScreenNode, p: &XeresProgram) -> (r: String)
    ensures
        r@ == screen_text(*sc, env_of(*p, *sc)),
{
    let env = view_env(p, sc);
    let decl = emit_state_decl(sc, &env.endpoints);
    let mut em = ScreenEmit { handlers: "".to_owned(), hcount: 0 };
    let ctx: Option<LoopCtx> = None;
    proof {
        reveal_strlit("");
        assert(loop_view(ctx) == None::<LoopView>);
    }
    let render = em.nodes(&sc.body, &env, &ctx);
    let from_url = sc.route.is_some() && !sc.is_component;
    let reads = if from_url {
        emit_param_reads(&sc.params)
    } else {
        "".to_owned()
    };
    let props = if from_url {
        "".to_owned()
    } else {
        emit_ts_params(&sc.params)
    };
    let destr = if sc.states.len() == 0 {
        "".to_owned()
    } else {
        let names = cell_parts(&sc.states).join(", ");
        cat5("  const { ", &names, " } = ", &sc.name, "_state;\n")
    };
    let loader = if sc.load.len() == 0 {
        "".to_owned()
    } else {
        let body = emit_h_block(&sc.load, "\n  ", &sc.name, &env.state_vars);
        cat7(
            "export async function ",
            &sc.name,
            "__load(): Promise<void> {\n",
            &reads,
            "  ",
            &body,
            "\n  if (__draw) __draw();\n}\n\n",
        )
    };
    cat13(
        &decl,
        &em.handlers,
        "export function ",
        &sc.name,
        "(",
        &props,
        "): string {\n",
        &reads,
        &destr,
        "  return ",
        &render,
        ";\n}\n\n",
        &loader,
    )
}

/// Whether a screen has a fixed path of its own.
pub open spec fn is_navigable(sc: ScreenNode) -> bool {
    !sc.is_component && sc.params@.len() == 0
}

/// The first screen with a path of its own among those from `i` on.
pub open spec fn first_navigable(screens: Seq<ScreenNode>, i: int) -> Option<int>
    decreases screens.len() - i,
{
    if i < 0 || i >= screens.len() {
        None
    } else if is_navigable(screens[i]) {
        Some(i)
    } else {
        first_navigable(screens, i + 1)
    }
}

/// The index of the screen that is shown at `/`.
pub fn default_screen(screens: &Vec<ScreenNode>) -> (r: Option<usize>)
    ensures
        match r {
            Some(i) => first_navigable(screens@, 0) == Some(i as int) && i < screens@.len(),
            None => first_navigable(screens@, 0) is None,
        },
{
    let mut i: usize = 0;
    while i < screens.len()
        invariant
            i <= screens.len(),
            first_navigable(screens@, 0) == first_navigable(screens@, i as int),
        decreases screens.len() - i,
    {
        if !screens[i].is_component && screens[i].params.len() == 0 {
            return Some(i);
        }
        i = i + 1;
    }
    None
}

/// The path of a screen: `/` for the default one, `/<name>` for any other.
pub open spec fn path_text(name: Seq<char>, default: Seq<char>) -> Seq<char> {
    if name == default {
        "/"@
    } else {
        "/"@ + lower_text(name)
    }
}

/// The path of a screen: `/` for the default one, `/<name>` for any other.
pub fn path_of(name: &str, default: &str) -> (r: String)
    ensures
        r@ == path_text(name@, default@),
{
    if same(name, default) {
        "/".to_owned()
    } else {
        cat2("/", &lowercase(name))
    }
}

/// The tables of the client router.
#[derive(Debug, Clone, Copy, PartialEq, Eq, Structural)]
pub enum RouteTable {
    Render,
    Path,
    ByPath,
    Loader,
    Protected,
    Pattern,
}

/// Whether a screen with a route stands in a table.
pub open spec fn in_table(t: RouteTable, sc: ScreenNode) -> bool {
    match t {
        RouteTable::Loader => sc.load@.len() > 0,
        RouteTable::Protected => sc.is_auth,
        _ => true,
    }
}

/// The quoted forms of a list of texts.
pub open spec fn quoted_all(parts: Seq<Seq<char>>) -> Seq<Seq<char>> {
    Seq::new(parts.len(), |i: int| debug_text(parts[i]))
}

/// A screen's entry in a table.
pub open spec fn entry_text(t: RouteTable, sc: ScreenNode, default: Seq<char>) -> Seq<char> {
    let name = debug_text(sc.name@);
    let path = debug_text(path_text(sc.name@, default));
    match t {
        RouteTable::Render => name + ": "@ + sc.name@,
        RouteTable::Path => name + ": "@ + path,
        RouteTable::ByPath => path + ": "@ + name,
        RouteTable::Loader => name + ": "@ + sc.name@ + "__load"@,
        RouteTable::Protected => name + ": true"@,
        RouteTable::Pattern => "{ screen: "@ + name + ", segs: ["@ + join_text(
            quoted_all(
                split_on(
                    (if sc.route is Some {
                        sc.route->0@
                    } else {
                        ""@
                    }),
                    '/',
                ),
            ),
            ", "@,
        ) + "] }"@,
    }
}

/// Whether a screen is routed in this way: by a URL pattern, or by a fixed path.
pub open spec fn routed(sc: ScreenNode, by_pattern: bool) -> bool {
    if by_pattern {
        is_param_screen(sc)
    } else {
        is_navigable(sc)
    }
}

/// The entries of the first `n` screens in a table.
pub open spec fn entries_text(
    t: RouteTable,
    screens: Seq<ScreenNode>,
    n: int,
    by_pattern: bool,
    default: Seq<char>,
) -> Seq<Seq<char>>
    decreases n,
{
    if n <= 0 || n > screens.len() {
        Seq::empty()
    } else if routed(screens[n - 1], by_pattern) && in_table(t, screens[n - 1]) {
        entries_text(t, screens, n - 1, by_pattern, default).push(
            entry_text(t, screens[n - 1], default),
        )
    } else {
        entries_text(t, screens, n - 1, by_pattern, default)
    }
}

/// A table of the router. `Render` and `Loader` hold both kinds of routes, the fixed ones first.
pub open spec fn table_text(t: RouteTable, screens: Seq<ScreenNode>, default: Seq<char>) -> Seq<
    char,
> {
    let n = screens.len() as int;
    join_text(
        match t {
            RouteTable::Render | RouteTable::Loader => entries_text(t, screens, n, false, default)
                + entries_text(t, screens, n, true, default),
            RouteTable::Pattern => entries_text(t, screens, n, true, default),
            _ => entries_text(t, screens, n, false, default),
        },
        ", "@,
    )
}

/// The client router, or nothing where no screen has a path of its own.
pub open spec fn router_text(screens: Seq<ScreenNode>) -> Seq<char> {
    match first_navigable(screens, 0) {
        None => ""@,
        Some(i) => {
            let d = screens[i].name@;
            "\n// ---- xeres client router ----\nconst __render: Record<string, () => string> = { "@
                + table_text(RouteTable::Render, screens, d)
                + " };\nconst __path: Record<string, string> = { "@ + table_text(
                RouteTable::Path,
                screens,
                d,
            ) + " };\nconst __byPath: Record<string, string> = { "@ + table_text(
                RouteTable::ByPath,
                screens,
                d,
            ) + " };\nconst __loaders: Record<string, () => void | Promise<void>> = { "@
                + table_text(RouteTable::Loader, screens, d) + " };\nconst __defaultScreen = "@
                + debug_text(d) + ";\nconst __protected: Record<string, boolean> = { "@
                + table_text(RouteTable::Protected, screens, d)
                + " };\nlet __screen = __defaultScreen;\nlet __params: Record<string, string> = {};\nconst __paramRoutes: Array<{ screen: string; segs: string[] }> = [ "@
                + table_text(RouteTable::Pattern, screens, d) + ROUTER_RUNTIME@
        },
    }
}

fn emit_entry(t: RouteTable, sc: &ScreenNode, default: &str) -> (r: String)
    ensures
        r@ == entry_text(t, *sc, default@),
{
    let name = quoted(&sc.name);
    let path = quoted(&path_of(&sc.name, default));
    match t {
        RouteTable::Render => cat3(&name, ": ", &sc.name),
        RouteTable::Path => cat3(&name, ": ", &path),
        RouteTable::ByPath => cat3(&path, ": ", &name),
        RouteTable::Loader => cat4(&name, ": ", &sc.name, "__load"),
        RouteTable::Protected => cat2(&name, ": true"),
        RouteTable::Pattern => {
            let segs = match &sc.route {
                Some(route) => split_char(route, '/'),
                None => split_char("", '/'),
            };
            let n: usize = segs.len();
            let mut out = Parts::new();
            let mut i: usize = 0;
            while i < n
                invariant
                    i <= n,
                    n == segs@.len(),
                    out@ =~= quoted_all(segs@).take(i as int),
                decreases n - i,
            {
                out.push(quoted(segs.get(i)));
                i = i + 1;
            }
            proof {
                assert(out@ =~= quoted_all(segs@));
            }
            cat5("{ screen: ", &name, ", segs: [", &out.join(", "), "] }")
        },
    }
}

fn emit_entries(t: RouteTable, screens: &Vec<ScreenNode>, by_pattern: bool, default: &str) -> (r:
    Parts)
    ensures
        r@ == entries_text(t, screens@, screens@.len() as int, by_pattern, default@),
{
    let mut out = Parts::new();
    let mut i: usize = 0;
    while i < screens.len()
        invariant
            i <= screens.len(),
            out@ == entries_text(t, screens@, i as int, by_pattern, default@),
        decreases screens.len() - i,
    {
        let sc = &screens[i];
        let here = if by_pattern {
            sc.route.is_some() && !sc.is_component
        } else {
            !sc.is_component && sc.params.len() == 0
        };
        let listed = match t {
            RouteTable::Loader => sc.load.len() > 0,
            RouteTable::Protected => sc.is_auth,
            _ => true,
        };
        if here && listed {
            out.push(emit_entry(t, sc, default));
        }
        i = i + 1;
    }
    out
}

fn emit_table(t: RouteTable, screens: &Vec<ScreenNode>, default: &str) -> (r: String)
    ensures
        r@ == table_text(t, screens@, default@),
{
    match t {
        RouteTable::Render | RouteTable::Loader => {
            let mut all = emit_entries(t, screens, false, default);
            all.extend(emit_entries(t, screens, true, default));
            all.join(", ")
        },
        RouteTable::Pattern => emit_entries(t, screens, true, default).join(", "),
        _ => emit_entries(t, screens, false, default).join(", "),
    }
}

/// Generates the client router: the route tables over the screens, and what runs on them.
pub fn gen_router(screens: &Vec<ScreenNode>) -> (r: String)
    ensures
        r@ == router_text(screens@),
{
    match default_screen(screens) {
        None => "".to_owned(),
        Some(i) => {
            let d = screens[i].name.clone();
            let head = cat10(
                "\n// ---- xeres client router ----\nconst __render: Record<string, () => string> = { ",
                &emit_table(RouteTable::Render, screens, &d),
                " };\nconst __path: Record<string, string> = { ",
                &emit_table(RouteTable::Path, screens, &d),
                " };\nconst __byPath: Record<string, string> = { ",
                &emit_table(RouteTable::ByPath, screens, &d),
                " };\nconst __loaders: Record<string, () => void | Promise<void>> = { ",
                &emit_table(RouteTable::Loader, screens, &d),
                " };\nconst __defaultScreen = ",
                &quoted(&d),
            );
            cat6(
                &head,
                ";\nconst __protected: Record<string, boolean> = { ",
                &emit_table(RouteTable::Protected, screens, &d),
                " };\nlet __screen = __defaultScreen;\nlet __params: Record<string, string> = {};\nconst __paramRoutes: Array<{ screen: string; segs: string[] }> = [ ",
                &emit_table(RouteTable::Pattern, screens, &d),
                ROUTER_RUNTIME,
            )
        },
    }
}

/// The first `n` variants, each in double quotes.
pub open spec fn variant_items(vs: Seq<String>, n: int) -> Seq<Seq<char>>
    decreases n,
{
    if n <= 0 || n > vs.len() {
        Seq::empty()
    } else {
        variant_items(vs, n - 1).push("\""@ + vs[n - 1]@ + "\""@)
    }
}

/// A string union of an enum's variants; `never` where joining them gives nothing.
pub open spec fn union_text(vs: Seq<String>) -> Seq<char> {
    let u = join_text(variant_items(vs, vs.len() as int), " | "@);
    if u.len() == 0 {
        "never"@
    } else {
        u
    }
}

/// The first `n` enums as string unions.
pub open spec fn ts_enums_text(es: Seq<EnumNode>, n: int) -> Seq<char>
    decreases n,
{
    if n <= 0 || n > es.len() {
        Seq::empty()
    } else {
        ts_enums_text(es, n - 1) + "export type "@ + es[n - 1].name@ + " = "@ + union_text(
            es[n - 1].variants@,
        ) + ";\n"@
    }
}

/// The first `n` fields of an interface. A secret field leaves a comment only.
pub open spec fn ts_fields_text(ps: Seq<PropertyNode>, n: int) -> Seq<char>
    decreases n,
{
    if n <= 0 || n > ps.len() {
        Seq::empty()
    } else if ps[n - 1].is_secret {
        ts_fields_text(ps, n - 1) + "  // "@ + ps[n - 1].name@
            + ": <stripped> — secret never crosses the wire\n"@
    } else {
        ts_fields_text(ps, n - 1) + "  "@ + ps[n - 1].name@ + ": "@ + ts_type(ps[n - 1].data_type@)
            + ";\n"@
    }
}

/// The first `n` models as interfaces.
pub open spec fn ts_models_text(ms: Seq<ModelNode>, n: int) -> Seq<char>
    decreases n,
{
    if n <= 0 || n > ms.len() {
        Seq::empty()
    } else {
        ts_models_text(ms, n - 1) + "export interface "@ + ms[n - 1].name@ + " {\n"@
            + ts_fields_text(ms[n - 1].properties@, ms[n - 1].properties@.len() as int)
            + "}\n\n"@
    }
}

/// Whether two lists of fields differ in the types of their secret fields alone.
pub open spec fn fields_alike(a: Seq<PropertyNode>, b: Seq<PropertyNode>) -> bool {
    &&& a.len() == b.len()
    &&& forall|i: int|
        0 <= i < a.len() ==> (#[trigger] a[i]).name@ == b[i].name@ && a[i].is_secret == b[i].is_secret
            && (!a[i].is_secret ==> a[i].data_type@ == b[i].data_type@)
}

/// Whether two lists of models differ in the types of their secret fields alone.
pub open spec fn models_alike(a: Seq<ModelNode>, b: Seq<ModelNode>) -> bool {
    &&& a.len() == b.len()
    &&& forall|i: int|
        0 <= i < a.len() ==> (#[trigger] a[i]).name@ == b[i].name@ && fields_alike(
            a[i].properties@,
            b[i].properties@,
        )
}

proof fn lemma_fields_alike(a: Seq<PropertyNode>, b: Seq<PropertyNode>, n: int)
    requires
        fields_alike(a, b),
    ensures
        ts_fields_text(a, n) == ts_fields_text(b, n),
    decreases n,
{
    if 0 < n <= a.len() {
        lemma_fields_alike(a, b, n - 1);
        assert(a[n - 1].name@ == b[n - 1].name@);
    }
}

/// Secret fields are stripped from the browser's models: their types leave no trace in it.
pub proof fn law_secret_fields_are_stripped(a: Seq<ModelNode>, b: Seq<ModelNode>, n: int)
    requires
        models_alike(a, b),
    ensures
        ts_models_text(a, n) == ts_models_text(b, n),
    decreases n,
{
    if 0 < n <= a.len() {
        law_secret_fields_are_stripped(a, b, n - 1);
        assert(a[n - 1].name@ == b[n - 1].name@);
        lemma_fields_alike(
            a[n - 1].properties@,
            b[n - 1].properties@,
            a[n - 1].properties@.len() as int,
        );
    }
}

/// The TypeScript return type of a function.
pub open spec fn ts_return_text(ret: Option<String>) -> Seq<char> {
    match ret {
        Some(t) => ts_type(t@),
        None => "void"@,
    }
}

/// A body's statements, one per line.
pub open spec fn ts_body_text(f: FunctionNode, n: int, eps: Seq<Seq<char>>) -> Seq<char>
    decreases n,
{
    if n <= 0 || n > f.body@.len() {
        Seq::empty()
    } else {
        ts_body_text(f, n - 1, eps) + "  "@ + stmt_text(f.body@[n - 1], "let"@, true, eps) + "\n"@
    }
}

/// A function on the browser tier: a remote-call stub for a server function, the function itself
/// for any other.
pub open spec fn ts_function_text(f: FunctionNode, eps: Seq<Seq<char>>) -> Seq<char> {
    let params = ts_params_text(f.params@);
    let ret = ts_return_text(f.return_type);
    if f.env == EnvModifier::Server {
        "// server fn — runs server-side; this is the auto-generated call site.\nexport async function "@
            + f.name@ + "("@ + params + "): Promise<"@ + ret + "> {\n  return __rpc(\""@ + f.name@
            + "\", ["@ + join_text(param_names(f.params@), ", "@) + "]);\n}\n\n"@
    } else {
        (if stmts_use_spec(f.body@, Feature::Await) {
            "export async function "@ + f.name@ + "("@ + params + "): Promise<"@ + ret + "> {\n"@
        } else {
            "export function "@ + f.name@ + "("@ + params + "): "@ + ret + " {\n"@
        }) + ts_body_text(f, f.body@.len() as int, eps) + "}\n\n"@
    }
}

/// The body of a server function does not reach the browser: its call site is the same whatever the
/// function does.
pub proof fn law_server_bodies_stay_on_the_server(f: FunctionNode, g: FunctionNode, eps: Seq<Seq<char>>)
    requires
        f.env == EnvModifier::Server,
        g.env == EnvModifier::Server,
        f.name@ == g.name@,
        f.params@ == g.params@,
        f.return_type == g.return_type,
    ensures
        ts_function_text(f, eps) == ts_function_text(g, eps),
{
}

/// The first `n` functions on the browser tier.
pub open spec fn ts_functions_text(fs: Seq<FunctionNode>, n: int, eps: Seq<Seq<char>>) -> Seq<char>
    decreases n,
{
    if n <= 0 || n > fs.len() {
        Seq::empty()
    } else {
        ts_functions_text(fs, n - 1, eps) + ts_function_text(fs[n - 1], eps)
    }
}

/// The first `n` screens.
pub open spec fn screens_text(p: XeresProgram, n: int) -> Seq<char>
    decreases n,
{
    if n <= 0 || n > p.screens@.len() {
        Seq::empty()
    } else {
        screens_text(p, n - 1) + screen_text(p.screens@[n - 1], env_of(p, p.screens@[n - 1]))
    }
}

/// The first `n` synced collections.
pub open spec fn collections_text(ss: Seq<SyncedStateNode>, n: int) -> Seq<char>
    decreases n,
{
    if n <= 0 || n > ss.len() {
        Seq::empty()
    } else {
        collections_text(ss, n - 1) + "export const "@ + ss[n - 1].name@
            + " = new SyncedCollection<"@ + ss[n - 1].collection_type@ + ">(\""@ + ss[n - 1].name@
            + "\");\n"@
    }
}

/// The registrations of those of the first `n` functions that run in the browser and take nothing.
pub open spec fn registrations_text(fs: Seq<FunctionNode>, n: int) -> Seq<char>
    decreases n,
{
    if n <= 0 || n > fs.len() {
        Seq::empty()
    } else if fs[n - 1].env != EnvModifier::Server && fs[n - 1].params@.len() == 0 {
        registrations_text(fs, n - 1) + "on(\""@ + fs[n - 1].name@ + "\", "@ + fs[n - 1].name@
            + ");\n"@
    } else {
        registrations_text(fs, n - 1)
    }
}

/// The redraws on a change of one of the first `n` synced collections.
pub open spec fn subscriptions_text(ss: Seq<SyncedStateNode>, n: int) -> Seq<char>
    decreases n,
{
    if n <= 0 || n > ss.len() {
        Seq::empty()
    } else {
        subscriptions_text(ss, n - 1) + ss[n - 1].name@
            + ".subscribe(() => { if (__draw) __draw(); });\n"@
    }
}

/// A text and a line end where a condition holds, nothing where it does not.
pub open spec fn when_text(cond: bool, t: Seq<char>) -> Seq<char> {
    if cond {
        t + "\n"@
    } else {
        ""@
    }
}

/// The browser tier of a program.
pub open spec fn client_text(p: XeresProgram, rt: Runtime) -> Seq<char> {
    let eps = endpoint_names(p.endpoints@);
    let has_screens = p.screens@.len() > 0;
    "// GENERATED by xeres — browser tier. Do not edit.\n\n"@ + RPC_RUNTIME@ + "\n"@ + UID_FN@
        + "\n"@ + when_text(uses_decimal_spec(p), rt.decimal@) + when_text(
        p.themes@.len() > 0,
        rt.theme@,
    ) + ts_enums_text(p.enums@, p.enums@.len() as int) + when_text(p.enums@.len() > 0, ""@)
        + ts_models_text(p.models@, p.models@.len() as int) + ts_functions_text(
        p.functions@,
        p.functions@.len() as int,
        eps,
    ) + when_text(has_screens, rt.mount@) + screens_text(p, p.screens@.len() as int) + when_text(
        p.states@.len() > 0,
        rt.sync@,
    ) + when_text(p.states@.len() > 0, collections_text(p.states@, p.states@.len() as int)) + (
    if has_screens {
        registrations_text(p.functions@, p.functions@.len() as int) + subscriptions_text(
            p.states@,
            p.states@.len() as int,
        ) + router_text(p.screens@)
    } else {
        ""@
    })
}

fn when(cond: bool, t: &str) -> (r: String)
    ensures
        r@ == when_text(cond, t@),
{
    if cond {
        cat2(t, "\n")
    } else {
        "".to_owned()
    }
}

fn emit_union(vs: &Vec<String>) -> (r: String)
    ensures
        r@ == union_text(vs@),
{
    let mut out = Parts::new();
    let mut i: usize = 0;
    while i < vs.len()
        invariant
            i <= vs.len(),
            out@ == variant_items(vs@, i as int),
        decreases vs.len() - i,
    {
        out.push(cat3("\"", &vs[i], "\""));
        i = i + 1;
    }
    let u = out.join(" | ");
    if u.as_str().unicode_len() == 0 {
        "never".to_owned()
    } else {
        u
    }
}

fn emit_ts_enums(es: &Vec<EnumNode>) -> (r: String)
    ensures
        r@ == ts_enums_text(es@, es@.len() as int),
{
    let mut out: String = String::new();
    let mut i: usize = 0;
    while i < es.len()
        invariant
            i <= es.len(),
            out@ == ts_enums_text(es@, i as int),
        decreases es.len() - i,
    {
        out = cat6(
            &out,
            "export type ",
            &es[i].name,
            " = ",
            &emit_union(&es[i].variants),
            ";\n",
        );
        i = i + 1;
    }
    out
}

fn emit_ts_fields(ps: &Vec<PropertyNode>) -> (r: String)
    ensures
        r@ == ts_fields_text(ps@, ps@.len() as int),
{
    let mut out: String = String::new();
    let mut i: usize = 0;
    while i < ps.len()
        invariant
            i <= ps.len(),
            out@ == ts_fields_text(ps@, i as int),
        decreases ps.len() - i,
    {
        if ps[i].is_secret {
            out = cat4(
                &out,
                "  // ",
                &ps[i].name,
                ": <stripped> — secret never crosses the wire\n",
            );
        } else {
            out = cat6(
                &out,
                "  ",
                &ps[i].name,
                ": ",
                &map_ts_type(&ps[i].data_type),
                ";\n",
            );
        }
        i = i + 1;
    }
    out
}

fn emit_ts_models(ms: &Vec<ModelNode>) -> (r: String)
    ensures
        r@ == ts_models_text(ms@, ms@.len() as int),
{
    let mut out: String = String::new();
    let mut i: usize = 0;
    while i < ms.len()
        invariant
            i <= ms.len(),
            out@ == ts_models_text(ms@, i as int),
        decreases ms.len() - i,
    {
        out = cat6(
            &out,
            "export interface ",
            &ms[i].name,
            " {\n",
            &emit_ts_fields(&ms[i].properties),
            "}\n\n",
        );
        i = i + 1;
    }
    out
}

fn emit_ts_body(f: &FunctionNode, eps: &Parts) -> (r: String)
    ensures
        r@ == ts_body_text(*f, f.body@.len() as int, eps@),
{
    let mut out: String = String::new();
    let mut i: usize = 0;
    while i < f.body.len()
        invariant
            i <= f.body.len(),
            out@ == ts_body_text(*f, i as int, eps@),
        decreases f.body.len() - i,
    {
        let t = emit_stmt(&f.body[i], "let", true, eps);
        out = cat4(&out, "  ", &t, "\n");
        i = i + 1;
    }
    out
}

fn emit_ts_function(f: &FunctionNode, eps: &Parts) -> (r: String)
    ensures
        r@ == ts_function_text(*f, eps@),
{
    let params = emit_ts_params(&f.params);
    let ret = match &f.return_type {
        Some(t) => map_ts_type(t),
        None => "void".to_owned(),
    };
    if f.env == EnvModifier::Server {
        cat11(
            "// server fn — runs server-side; this is the auto-generated call site.\nexport async function ",
            &f.name,
            "(",
            &params,
            "): Promise<",
            &ret,
            "> {\n  return __rpc(\"",
            &f.name,
            "\", [",
            &param_parts(&f.params).join(", "),
            "]);\n}\n\n",
        )
    } else {
        let head = if stmts_have_await(&f.body) {
            cat7("export async function ", &f.name, "(", &params, "): Promise<", &ret, "> {\n")
        } else {
            cat7("export function ", &f.name, "(", &params, "): ", &ret, " {\n")
        };
        cat3(&head, &emit_ts_body(f, eps), "}\n\n")
    }
}

fn emit_ts_functions(fs: &Vec<FunctionNode>, eps: &Parts) -> (r: String)
    ensures
        r@ == ts_functions_text(fs@, fs@.len() as int, eps@),
{
    let mut out: String = String::new();
    let mut i: usize = 0;
    while i < fs.len()
        invariant
            i <= fs.len(),
            out@ == ts_functions_text(fs@, i as int, eps@),
        decreases fs.len() - i,
    {
        out = cat2(&out, &emit_ts_function(&fs[i], eps));
        i = i + 1;
    }
    out
}

fn emit_screens(p: &XeresProgram) -> (r: String)
    ensures
        r@ == screens_text(*p, p.screens@.len() as int),
{
    let mut out: String = String::new();
    let mut i: usize = 0;
    while i < p.screens.len()
        invariant
            i <= p.screens.len(),
            out@ == screens_text(*p, i as int),
        decreases p.screens.len() - i,
    {
        out = cat2(&out, &gen_screen(&p.screens[i], p));
        i = i + 1;
    }
    out
}

fn emit_collections(ss: &Vec<SyncedStateNode>) -> (r: String)
    ensures
        r@ == collections_text(ss@, ss@.len() as int),
{
    let mut out: String = String::new();
    let mut i: usize = 0;
    while i < ss.len()
        invariant
            i <= ss.len(),
            out@ == collections_text(ss@, i as int),
        decreases ss.len() - i,
    {
        out = cat8(
            &out,
            "export const ",
            &ss[i].name,
            " = new SyncedCollection<",
            &ss[i].collection_type,
            ">(\"",
            &ss[i].name,
            "\");\n",
        );
        i = i + 1;
    }
    out
}

fn emit_registrations(fs: &Vec<FunctionNode>) -> (r: String)
    ensures
        r@ == registrations_text(fs@, fs@.len() as int),
{
    let mut out: String = String::new();
    let mut i: usize = 0;
    while i < fs.len()
        invariant
            i <= fs.len(),
            out@ == registrations_text(fs@, i as int),
        decreases fs.len() - i,
    {
        if fs[i].env != EnvModifier::Server && fs[i].params.len() == 0 {
            out = cat6(&out, "on(\"", &fs[i].name, "\", ", &fs[i].name, ");\n");
        }
        i = i + 1;
    }
    out
}

fn emit_subscriptions(ss: &Vec<SyncedStateNode>) -> (r: String)
    ensures
        r@ == subscriptions_text(ss@, ss@.len() as int),
{
    let mut out: String = String::new();
    let mut i: usize = 0;
    while i < ss.len()
        invariant
            i <= ss.len(),
            out@ == subscriptions_text(ss@, i as int),
        decreases ss.len() - i,
    {
        out = cat3(&out, &ss[i].name, ".subscribe(() => { if (__draw) __draw(); });\n");
        i = i + 1;
    }
    out
}

/// Generates the browser tier of a program.
pub fn gen_client(p: &XeresProgram, rt: &Runtime) -> (r: String)
    ensures
        r@ == client_text(*p, *rt),
{
    let eps = endpoint_parts(&p.endpoints);
    let has_screens = p.screens.len() > 0;
    let has_states = p.states.len() > 0;
    let head = cat5(
        "// GENERATED by xeres — browser tier. Do not edit.\n\n",
        RPC_RUNTIME,
        "\n",
        UID_FN,
        "\n",
    );
    let tail = if has_screens {
        cat3(
            &emit_registrations(&p.functions),
            &emit_subscriptions(&p.states),
            &gen_router(&p.screens),
        )
    } else {
        "".to_owned()
    };
    cat12(
        &head,
        &when(uses_decimal(p), &rt.decimal),
        &when(p.themes.len() > 0, &rt.theme),
        &emit_ts_enums(&p.enums),
        &when(p.enums.len() > 0, ""),
        &emit_ts_models(&p.models),
        &emit_ts_functions(&p.functions, &eps),
        &when(has_screens, &rt.mount),
        &emit_screens(p),
        &when(has_states, &rt.sync),
        &when(has_states, &emit_collections(&p.states)),
        &tail,
    )
}

} // verus!
