//! The view printer: a screen's view as a TypeScript template, with the handlers that its
//! inline blocks and bindings need.
use vstd::prelude::*;
use vstd::string::*;

use crate::ast::{Expr, Handler, ViewNode};
use crate::css::{inline_css, inline_css_text, resolve_from, resolve_tokens};
use crate::emit::{emit_expr, expr_text};
use crate::emit_handler::{emit_h_block, h_block_text};
use crate::num::{nat_text, usize_text};
use crate::strmap::StrMap;
use crate::text::{cat2, cat3, cat4, cat5, cat6, cat7, cat8, cat9, join_text, same, Parts};
use crate::unicode::{debug_text, lower_text, lowercase, quoted};
use crate::uses::{stmts_have_await, stmts_use_spec, Feature};

verus! {

/// What the view of a screen is printed against.
pub struct ViewEnv {
    /// The screen's name.
    pub screen: String,
    /// The names of the screen's cells.
    pub state_vars: Parts,
    /// The names of the program's synced collections.
    pub synced: Parts,
    /// The parameters of each component, in declaration order.
    pub components: StrMap<Parts>,
    /// The CSS variable of each design token.
    pub tokens: StrMap<String>,
    /// The names of the program's named styles.
    pub named_styles: Parts,
    /// The names of the program's endpoints.
    pub endpoints: Parts,
}

/// What the view of a screen is printed against, by its texts.
pub struct EnvView {
    pub screen: Seq<char>,
    pub state_vars: Seq<Seq<char>>,
    pub synced: Seq<Seq<char>>,
    pub components: Map<Seq<char>, Seq<Seq<char>>>,
    pub tokens: Map<Seq<char>, Seq<char>>,
    pub named_styles: Seq<Seq<char>>,
    pub endpoints: Seq<Seq<char>>,
}

impl View for ViewEnv {
    type V = EnvView;

    open spec fn view(&self) -> EnvView {
        EnvView {
            screen: self.screen@,
            state_vars: self.state_vars@,
            synced: self.synced@,
            components: self.components@,
            tokens: self.tokens@,
            named_styles: self.named_styles@,
            endpoints: self.endpoints@,
        }
    }
}

/// Where the items of the innermost `for` loop live, so that a handler can look its item up
/// again: a synced collection is keyed by `id`, an array by index.
pub struct LoopView {
    pub var: Seq<char>,
    pub source: Seq<char>,
    pub synced: bool,
}

/// The innermost `for` loop around a view node.
pub struct LoopCtx {
    pub var: String,
    pub source: String,
    pub synced: bool,
}

/// The innermost loop, by its texts.
pub open spec fn loop_view(ctx: Option<LoopCtx>) -> Option<LoopView> {
    match ctx {
        Some(c) => Some(LoopView { var: c.var@, source: c.source@, synced: c.synced }),
        None => None,
    }
}

/// What printing a part of a view gives: its text, all handler code so far, and the number of
/// inline handlers so far.
pub struct Emitted {
    pub text: Seq<char>,
    pub handlers: Seq<char>,
    pub count: nat,
}

/// The HTML tag of a view tag.
pub open spec fn html_tag_text(tag: Seq<char>) -> Seq<char> {
    if tag == "column"@ || tag == "row"@ || tag == "box"@ || tag == "grid"@ || tag == "radio"@ {
        "div"@
    } else if tag == "heading"@ {
        "h1"@
    } else if tag == "subheading"@ {
        "h2"@
    } else if tag == "title"@ {
        "h3"@
    } else if tag == "text"@ {
        "span"@
    } else if tag == "paragraph"@ {
        "p"@
    } else if tag == "button"@ {
        "button"@
    } else if tag == "password"@ || tag == "checkbox"@ || tag == "number"@ {
        "input"@
    } else if tag == "image"@ {
        "img"@
    } else if tag == "link"@ {
        "a"@
    } else {
        tag
    }
}

/// The HTML tag of a view tag.
pub fn map_tag<'a>(tag: &'a str) -> (r: &'a str)
    ensures
        r@ == html_tag_text(tag@),
{
    if same(tag, "column") || same(tag, "row") || same(tag, "box") || same(tag, "grid") || same(
        tag,
        "radio",
    ) {
        "div"
    } else if same(tag, "heading") {
        "h1"
    } else if same(tag, "subheading") {
        "h2"
    } else if same(tag, "title") {
        "h3"
    } else if same(tag, "text") {
        "span"
    } else if same(tag, "paragraph") {
        "p"
    } else if same(tag, "button") {
        "button"
    } else if same(tag, "password") || same(tag, "checkbox") || same(tag, "number") {
        "input"
    } else if same(tag, "image") {
        "img"
    } else if same(tag, "link") {
        "a"
    } else {
        tag
    }
}

/// Whether an HTML element has no children and no closing tag.
pub open spec fn void_tag(html: Seq<char>) -> bool {
    html == "input"@ || html == "br"@ || html == "img"@ || html == "hr"@
}

/// Whether an HTML element has no children and no closing tag.
pub fn is_void(html: &str) -> (r: bool)
    ensures
        r == void_tag(html@),
{
    same(html, "input") || same(html, "br") || same(html, "img") || same(html, "hr")
}

/// The layout that a container tag has by itself.
pub open spec fn base_layout_text(tag: Seq<char>) -> Seq<char> {
    if tag == "row"@ {
        "display:flex;flex-direction:row;"@
    } else if tag == "column"@ {
        "display:flex;flex-direction:column;"@
    } else if tag == "grid"@ {
        "display:grid;"@
    } else {
        ""@
    }
}

fn base_layout(tag: &str) -> (r: &'static str)
    ensures
        r@ == base_layout_text(tag@),
{
    if same(tag, "row") {
        "display:flex;flex-direction:row;"
    } else if same(tag, "column") {
        "display:flex;flex-direction:column;"
    } else if same(tag, "grid") {
        "display:grid;"
    } else {
        ""
    }
}

/// The value of a style attribute: a literal is tidied and inlined, with its tokens resolved;
/// any other expression is interpolated.
pub open spec fn style_value_text(e: Expr, env: EnvView) -> Seq<char> {
    match e {
        Expr::Str(css) => inline_css_text(resolve_from(css@, env.tokens, 0)),
        _ => "${"@ + expr_text(e, true, env.endpoints) + "}"@,
    }
}

fn style_value(e: &Expr, env: &ViewEnv) -> (r: String)
    ensures
        r@ == style_value_text(*e, env@),
{
    match e {
        Expr::Str(css) => inline_css(&resolve_tokens(css, &env.tokens)),
        _ => cat3("${", &emit_expr(e, true, &env.endpoints), "}"),
    }
}

/// Whether a style expression names a declared style.
pub open spec fn is_named_style(e: Expr, env: EnvView) -> bool {
    e is Ident && env.named_styles.contains(e->Ident_0@)
}

/// The style attribute of an element. A named style is a class; an explicit style takes over the
/// element's look; without either, `row` and `column` carry their default class.
pub open spec fn style_text(tag: Seq<char>, style: Option<Expr>, env: EnvView) -> Seq<char> {
    match style {
        Some(e) => if is_named_style(e, env) {
            " class=\"x-"@ + lower_text(e->Ident_0@) + "\""@
        } else {
            " style=\""@ + base_layout_text(tag) + style_value_text(e, env) + "\""@
        },
        None => if tag == "row"@ {
            " class=\"x-row\""@
        } else if tag == "column"@ {
            " class=\"x-col\""@
        } else {
            ""@
        },
    }
}

fn emit_style(tag: &str, style: &Option<Expr>, env: &ViewEnv) -> (r: String)
    ensures
        r@ == style_text(tag@, *style, env@),
{
    match style {
        Some(e) => {
            if let Expr::Ident(name) = e {
                if env.named_styles.contains(name) {
                    return cat3(" class=\"x-", &lowercase(name), "\"");
                }
            }
            cat4(" style=\"", base_layout(tag), &style_value(e, env), "\"")
        },
        None => if same(tag, "row") {
            " class=\"x-row\"".to_owned()
        } else if same(tag, "column") {
            " class=\"x-col\"".to_owned()
        } else {
            "".to_owned()
        },
    }
}

/// How a handler inside a loop finds its item again.
pub open spec fn lookup_text(c: LoopView) -> Seq<char> {
    if c.synced {
        c.source + ".get(__key)"@
    } else {
        c.source + "[__key]"@
    }
}

/// The key of an item inside a loop.
pub open spec fn key_text(c: LoopView) -> Seq<char> {
    if c.synced {
        c.var + ".id"@
    } else {
        "__i_"@ + c.var
    }
}

/// The event attribute of an element. An inline block becomes a handler of its own, which inside
/// a loop takes the item's key.
pub open spec fn event_out(
    event: Option<Handler>,
    env: EnvView,
    ctx: Option<LoopView>,
    handlers: Seq<char>,
    count: nat,
) -> Emitted {
    match event {
        Some(Handler::Call(e)) => Emitted {
            text: " data-onclick=\""@ + expr_text(e, true, env.endpoints) + "\""@,
            handlers,
            count,
        },
        Some(Handler::Block(ss)) => {
            let h = env.screen + "_h"@ + nat_text(count);
            let body = h_block_text(ss@, " "@, env.screen, env.state_vars);
            let kw = if stmts_use_spec(ss@, Feature::Await) {
                "async function "@
            } else {
                "function "@
            };
            match ctx {
                Some(c) => Emitted {
                    text: " data-onclick=\""@ + h + "\" data-key=\"${__esc("@ + key_text(c)
                        + ")}\""@,
                    handlers: handlers + kw + h + "(__key) { const "@ + c.var + " = "@
                        + lookup_text(c) + "; "@ + body + " }\non(\""@ + h + "\", "@ + h + ");\n"@,
                    count: count + 1,
                },
                None => Emitted {
                    text: " data-onclick=\""@ + h + "\""@,
                    handlers: handlers + kw + h + "() { "@ + body + " }\non(\""@ + h + "\", "@ + h
                        + ");\n"@,
                    count: count + 1,
                },
            }
        },
        None => Emitted { text: ""@, handlers, count },
    }
}

/// The attributes that a void element takes from its argument: the input type, an image's source,
/// an input's placeholder.
pub open spec fn void_attrs_text(tag: Seq<char>, arg: Option<Expr>, env: EnvView) -> Seq<char> {
    (if tag == "password"@ {
        " type=\"password\""@
    } else if tag == "checkbox"@ {
        " type=\"checkbox\""@
    } else if tag == "number"@ {
        " type=\"number\""@
    } else {
        ""@
    }) + (match arg {
        Some(e) => if tag == "image"@ {
            " src=\"${__esc("@ + expr_text(e, true, env.endpoints) + ")}\""@
        } else if e is Str {
            " placeholder=\""@ + e->Str_0@ + "\""@
        } else {
            ""@
        },
        None => ""@,
    })
}

fn void_attrs(tag: &str, arg: &Option<Expr>, env: &ViewEnv) -> (r: String)
    ensures
        r@ == void_attrs_text(tag@, *arg, env@),
{
    let kind = if same(tag, "password") {
        " type=\"password\""
    } else if same(tag, "checkbox") {
        " type=\"checkbox\""
    } else if same(tag, "number") {
        " type=\"number\""
    } else {
        ""
    };
    let rest = match arg {
        Some(e) => if same(tag, "image") {
            cat3(" src=\"${__esc(", &emit_expr(e, true, &env.endpoints), ")}\"")
        } else {
            match e {
                Expr::Str(ph) => cat3(" placeholder=\"", ph, "\""),
                _ => "".to_owned(),
            }
        },
        None => "".to_owned(),
    };
    cat2(kind, &rest)
}

/// The name under which a binding is registered.
pub open spec fn bind_name_text(var: Seq<char>, env: EnvView) -> Seq<char> {
    env.screen + ":"@ + var
}

/// The handler code that a two-way binding registers.
pub open spec fn bind_handler_text(bind: Option<String>, env: EnvView) -> Seq<char> {
    match bind {
        Some(v) => "onBind(\""@ + bind_name_text(v@, env) + "\", (v) => { "@ + env.screen
            + "_state."@ + v@ + " = v; });\n"@,
        None => ""@,
    }
}

/// The attributes of a two-way binding. A checkbox reflects `checked`, a textarea and a select
/// their content, a radio group each of its inputs, any other element its `value`.
pub open spec fn bind_attrs_text(tag: Seq<char>, bind: Option<String>, env: EnvView) -> Seq<char> {
    match bind {
        Some(v) => {
            let bn = bind_name_text(v@, env);
            if tag == "checkbox"@ {
                " ${"@ + v@ + " ? \"checked\" : \"\"} data-bind=\""@ + bn + "\""@
            } else if tag == "textarea"@ || tag == "select"@ {
                " data-bind=\""@ + bn + "\""@
            } else if tag == "radio"@ {
                ""@
            } else {
                " value=\"${__esc("@ + v@ + ")}\" data-bind=\""@ + bn + "\""@
            }
        },
        None => ""@,
    }
}

fn bind_handler(bind: &Option<String>, env: &ViewEnv) -> (r: String)
    ensures
        r@ == bind_handler_text(*bind, env@),
{
    match bind {
        Some(v) => {
            let bn = cat3(&env.screen, ":", v);
            cat7("onBind(\"", &bn, "\", (v) => { ", &env.screen, "_state.", v, " = v; });\n")
        },
        None => "".to_owned(),
    }
}

fn bind_attrs(tag: &str, bind: &Option<String>, env: &ViewEnv) -> (r: String)
    ensures
        r@ == bind_attrs_text(tag@, *bind, env@),
{
    match bind {
        Some(v) => {
            let bn = cat3(&env.screen, ":", v);
            if same(tag, "checkbox") {
                cat5(" ${", v, " ? \"checked\" : \"\"} data-bind=\"", &bn, "\"")
            } else if same(tag, "textarea") || same(tag, "select") {
                cat3(" data-bind=\"", &bn, "\"")
            } else if same(tag, "radio") {
                "".to_owned()
            } else {
                cat5(" value=\"${__esc(", v, ")}\" data-bind=\"", &bn, "\"")
            }
        },
        None => "".to_owned(),
    }
}

/// An element's argument as content: a literal as it stands, `raw(...)` without escaping, any
/// other value HTML-escaped.
pub open spec fn content_arg_text(arg: Option<Expr>, env: EnvView) -> Seq<char> {
    match arg {
        Some(Expr::Str(t)) => t@,
        Some(Expr::Raw(inner)) => "${"@ + expr_text(*inner, true, env.endpoints) + "}"@,
        Some(e) => "${__esc("@ + expr_text(e, true, env.endpoints) + ")}"@,
        None => ""@,
    }
}

fn content_arg(arg: &Option<Expr>, env: &ViewEnv) -> (r: String)
    ensures
        r@ == content_arg_text(*arg, env@),
{
    match arg {
        Some(e) => match e {
            Expr::Str(t) => t.clone(),
            Expr::Raw(inner) => cat3("${", &emit_expr(inner, true, &env.endpoints), "}"),
            _ => cat3("${__esc(", &emit_expr(e, true, &env.endpoints), ")}"),
        },
        None => "".to_owned(),
    }
}

/// The content of an element in front of its children.
pub open spec fn content_text(
    tag: Seq<char>,
    arg: Option<Expr>,
    bind: Option<String>,
    env: EnvView,
) -> Seq<char> {
    if tag == "textarea"@ {
        match bind {
            Some(v) => "${__esc("@ + v@ + ")}"@,
            None => ""@,
        }
    } else if tag == "select"@ {
        if bind is Some && arg is Some {
            "${("@ + expr_text(arg->0, true, env.endpoints) + ").map((__o) => `<option ${("@
                + bind->0@
                + ") === __o ? \"selected\" : \"\"}>${__esc(__o)}</option>`).join(\"\")}"@
        } else {
            ""@
        }
    } else if tag == "radio"@ {
        if bind is Some && arg is Some {
            let bn = bind_name_text(bind->0@, env);
            "${("@ + expr_text(arg->0, true, env.endpoints)
                + ").map((__o) => `<label><input type=\"radio\" name=\""@ + bn
                + "\" value=\"${__esc(__o)}\" ${("@ + bind->0@
                + ") === __o ? \"checked\" : \"\"} data-bind=\""@ + bn
                + "\" />${__esc(__o)}</label>`).join(\"\")}"@
        } else {
            ""@
        }
    } else {
        content_arg_text(arg, env)
    }
}

fn emit_content(tag: &str, arg: &Option<Expr>, bind: &Option<String>, env: &ViewEnv) -> (r: String)
    ensures
        r@ == content_text(tag@, *arg, *bind, env@),
{
    if same(tag, "textarea") {
        match bind {
            Some(v) => cat3("${__esc(", v, ")}"),
            None => "".to_owned(),
        }
    } else if same(tag, "select") {
        match (bind, arg) {
            (Some(v), Some(e)) => cat5(
                "${(",
                &emit_expr(e, true, &env.endpoints),
                ").map((__o) => `<option ${(",
                v,
                ") === __o ? \"selected\" : \"\"}>${__esc(__o)}</option>`).join(\"\")}",
            ),
            _ => "".to_owned(),
        }
    } else if same(tag, "radio") {
        match (bind, arg) {
            (Some(v), Some(e)) => {
                let bn = cat3(&env.screen, ":", v);
                cat9(
                    "${(",
                    &emit_expr(e, true, &env.endpoints),
                    ").map((__o) => `<label><input type=\"radio\" name=\"",
                    &bn,
                    "\" value=\"${__esc(__o)}\" ${(",
                    v,
                    ") === __o ? \"checked\" : \"\"} data-bind=\"",
                    &bn,
                    "\" />${__esc(__o)}</label>`).join(\"\")}",
                )
            },
            _ => "".to_owned(),
        }
    } else {
        content_arg(arg, env)
    }
}

/// The screen that a link leads to.
pub open spec fn link_target_text(event: Option<Handler>) -> Seq<char> {
    match event {
        Some(Handler::Call(Expr::Ident(name))) => name@,
        _ => ""@,
    }
}

fn link_target(event: &Option<Handler>) -> (r: String)
    ensures
        r@ == link_target_text(*event),
{
    match event {
        Some(h) => match h {
            Handler::Call(e) => match e {
                Expr::Ident(name) => name.clone(),
                _ => "".to_owned(),
            },
            Handler::Block(_) => "".to_owned(),
        },
        None => "".to_owned(),
    }
}

/// `link "Label" -> Screen`: an anchor whose address comes from the route map and which the
/// client router handles.
pub open spec fn link_text(
    arg: Option<Expr>,
    style: Option<Expr>,
    event: Option<Handler>,
    env: EnvView,
) -> Seq<char> {
    let target = debug_text(link_target_text(event));
    "`<a href=\"${__path["@ + target + "]}\" data-link="@ + target + (match style {
        Some(e) => if is_named_style(e, env) {
            " class=\"x-"@ + lower_text(e->Ident_0@) + "\""@
        } else {
            " style=\""@ + style_value_text(e, env) + "\""@
        },
        None => ""@,
    }) + ">"@ + content_arg_text(arg, env) + "</a>`"@
}

/// Prints a link as an anchor that the client router handles.
pub fn link_node(
    arg: &Option<Expr>,
    style: &Option<Expr>,
    event: &Option<Handler>,
    env: &ViewEnv,
) -> (r: String)
    ensures
        r@ == link_text(*arg, *style, *event, env@),
{
    let target = quoted(&link_target(event));
    let look = link_style(style, env);
    cat8(
        "`<a href=\"${__path[",
        &target,
        "]}\" data-link=",
        &target,
        &look,
        ">",
        &content_arg(arg, env),
        "</a>`",
    )
}

fn link_style(style: &Option<Expr>, env: &ViewEnv) -> (r: String)
    ensures
        r@ == (match *style {
            Some(e) => if is_named_style(e, env@) {
                " class=\"x-"@ + lower_text(e->Ident_0@) + "\""@
            } else {
                " style=\""@ + style_value_text(e, env@) + "\""@
            },
            None => ""@,
        }),
{
    match style {
        Some(e) => {
            if let Expr::Ident(name) = e {
                if env.named_styles.contains(name) {
                    return cat3(" class=\"x-", &lowercase(name), "\"");
                }
            }
            cat3(" style=\"", &style_value(e, env), "\"")
        },
        None => "".to_owned(),
    }
}

/// Whether a loop runs over a synced collection.
pub open spec fn loops_synced(iter: Expr, env: EnvView) -> bool {
    iter is Ident && env.synced.contains(iter->Ident_0@)
}

/// The loop context of a `for` over `iter`: none where the items have no name to find them by.
pub open spec fn loop_ctx_of(var: Seq<char>, iter: Expr, env: EnvView) -> Option<LoopView> {
    match iter {
        Expr::Ident(c) => Some(
            LoopView {
                var,
                source: if loops_synced(iter, env) {
                    c@
                } else if env.state_vars.contains(c@) {
                    env.screen + "_state."@ + c@
                } else {
                    c@
                },
                synced: loops_synced(iter, env),
            },
        ),
        _ => None,
    }
}

fn loop_ctx(var: &str, iter: &Expr, env: &ViewEnv) -> (r: Option<LoopCtx>)
    ensures
        loop_view(r) == loop_ctx_of(var@, *iter, env@),
{
    match iter {
        Expr::Ident(c) => {
            let synced = env.synced.contains(c);
            let source = if !synced && env.state_vars.contains(c) {
                cat3(&env.screen, "_state.", c)
            } else {
                c.clone()
            };
            Some(LoopCtx { var: var.to_owned(), source, synced })
        },
        _ => None,
    }
}

/// The first argument of this name, or `None`.
pub open spec fn named_arg(args: Seq<(String, Expr)>, name: Seq<char>) -> Option<Expr>
    decreases args.len(),
{
    if args.len() == 0 {
        None
    } else if args[0].0@ == name {
        Some(args[0].1)
    } else {
        named_arg(args.subrange(1, args.len() as int), name)
    }
}

/// The argument texts for the first `n` parameters, in the parameters' order.
pub open spec fn positional_text(
    params: Seq<Seq<char>>,
    n: int,
    args: Seq<(String, Expr)>,
    eps: Seq<Seq<char>>,
) -> Seq<Seq<char>>
    decreases n,
{
    if n <= 0 || n > params.len() {
        Seq::empty()
    } else {
        positional_text(params, n - 1, args, eps).push(
            match named_arg(args, params[n - 1]) {
                Some(e) => expr_text(e, true, eps),
                None => "undefined"@,
            },
        )
    }
}

/// The texts of the first `n` arguments, as they stand.
pub open spec fn plain_args_text(args: Seq<(String, Expr)>, n: int, eps: Seq<Seq<char>>) -> Seq<
    Seq<char>,
>
    decreases n,
{
    if n <= 0 || n > args.len() {
        Seq::empty()
    } else {
        plain_args_text(args, n - 1, eps).push(expr_text(args[n - 1].1, true, eps))
    }
}

/// A component's invocation, its named arguments in the order of its parameters.
pub open spec fn component_text(name: Seq<char>, args: Seq<(String, Expr)>, env: EnvView) -> Seq<
    char,
> {
    let eps = env.endpoints;
    name + "("@ + join_text(
        if env.components.dom().contains(name) {
            let ps = env.components[name];
            positional_text(ps, ps.len() as int, args, eps)
        } else {
            plain_args_text(args, args.len() as int, eps)
        },
        ", "@,
    ) + ")"@
}

fn find_arg<'a>(args: &'a Vec<(String, Expr)>, name: &str) -> (r: Option<&'a Expr>)
    ensures
        match r {
            Some(e) => named_arg(args@, name@) == Some(*e),
            None => named_arg(args@, name@) is None,
        },
{
    let n: usize = args.len();
    let mut i: usize = 0;
    proof {
        assert(args@.subrange(0, n as int) =~= args@);
    }
    while i < n
        invariant
            i <= n,
            n == args@.len(),
            named_arg(args@, name@) == named_arg(args@.subrange(i as int, n as int), name@),
        decreases n - i,
    {
        proof {
            let t = args@.subrange(i as int, n as int);
            assert(t.subrange(1, t.len() as int) =~= args@.subrange(i + 1, n as int));
        }
        if same(&args[i].0, name) {
            return Some(&args[i].1);
        }
        i = i + 1;
    }
    None
}

fn emit_component(name: &str, args: &Vec<(String, Expr)>, env: &ViewEnv) -> (r: String)
    ensures
        r@ == component_text(name@, args@, env@),
{
    let mut out = Parts::new();
    match env.components.get(name) {
        Some(ps) => {
            let n: usize = ps.len();
            let mut i: usize = 0;
            while i < n
                invariant
                    i <= n,
                    n == ps@.len(),
                    out@ == positional_text(ps@, i as int, args@, env.endpoints@),
                decreases n - i,
            {
                match find_arg(args, ps.get(i)) {
                    Some(e) => {
                        out.push(emit_expr(e, true, &env.endpoints));
                    },
                    None => {
                        out.push("undefined".to_owned());
                    },
                }
                i = i + 1;
            }
        },
        None => {
            let mut i: usize = 0;
            while i < args.len()
                invariant
                    i <= args.len(),
                    out@ == plain_args_text(args@, i as int, env.endpoints@),
                decreases args.len() - i,
            {
                out.push(emit_expr(&args[i].1, true, &env.endpoints));
                i = i + 1;
            }
        },
    }
    cat4(name, "(", &out.join(", "), ")")
}

/// What printing a view node gives.
pub open spec fn node_out(
    v: ViewNode,
    env: EnvView,
    ctx: Option<LoopView>,
    handlers: Seq<char>,
    count: nat,
) -> Emitted
    decreases v, 0int,
{
    match v {
        ViewNode::Element { tag, arg, style, bind, event, children } => if tag@ == "link"@ {
            Emitted { text: link_text(arg, style, event, env), handlers, count }
        } else {
            let html = html_tag_text(tag@);
            let ev = event_out(event, env, ctx, handlers, count);
            let bound = ev.handlers + bind_handler_text(bind, env);
            let head = "`<"@ + html + style_text(tag@, style, env) + ev.text;
            if void_tag(html) {
                Emitted {
                    text: head + void_attrs_text(tag@, arg, env) + bind_attrs_text(tag@, bind, env)
                        + " />`"@,
                    handlers: bound,
                    count: ev.count,
                }
            } else {
                let inner = children_out(
                    children@,
                    children@.len() as int,
                    env,
                    ctx,
                    bound,
                    ev.count,
                );
                Emitted {
                    text: head + bind_attrs_text(tag@, bind, env) + ">"@ + content_text(
                        tag@,
                        arg,
                        bind,
                        env,
                    ) + inner.text + "</"@ + html + ">`"@,
                    handlers: inner.handlers,
                    count: inner.count,
                }
            }
        },
        ViewNode::For { var, iter, body } => {
            let b = nodes_out(body@, env, loop_ctx_of(var@, iter, env), handlers, count);
            let it = expr_text(iter, true, env.endpoints);
            Emitted {
                text: if loops_synced(iter, env) {
                    it + ".all().map(("@ + var@ + ") => "@ + b.text + ").join(\"\")"@
                } else {
                    it + ".map(("@ + var@ + ", __i_"@ + var@ + ") => "@ + b.text + ").join(\"\")"@
                },
                handlers: b.handlers,
                count: b.count,
            }
        },
        ViewNode::If { cond, then_body, else_body } => {
            let t = nodes_out(then_body@, env, ctx, handlers, count);
            let o = nodes_out(else_body@, env, ctx, t.handlers, t.count);
            Emitted {
                text: "("@ + expr_text(cond, true, env.endpoints) + " ? "@ + t.text + " : "@
                    + o.text + ")"@,
                handlers: o.handlers,
                count: o.count,
            }
        },
        ViewNode::Component { name, args, .. } => Emitted {
            text: component_text(name@, args@, env),
            handlers,
            count,
        },
    }
}

/// What printing the first `n` children gives, each interpolated.
pub open spec fn children_out(
    vs: Seq<ViewNode>,
    n: int,
    env: EnvView,
    ctx: Option<LoopView>,
    handlers: Seq<char>,
    count: nat,
) -> Emitted
    decreases vs, n,
{
    if n <= 0 || n > vs.len() {
        Emitted { text: Seq::empty(), handlers, count }
    } else {
        let before = children_out(vs, n - 1, env, ctx, handlers, count);
        let last = node_out(vs[n - 1], env, ctx, before.handlers, before.count);
        Emitted {
            text: before.text + "${"@ + last.text + "}"@,
            handlers: last.handlers,
            count: last.count,
        }
    }
}

/// What printing a list of nodes as one expression gives.
pub open spec fn nodes_out(
    vs: Seq<ViewNode>,
    env: EnvView,
    ctx: Option<LoopView>,
    handlers: Seq<char>,
    count: nat,
) -> Emitted
    decreases vs, vs.len() + 1,
{
    if vs.len() == 0 {
        Emitted { text: "\"\""@, handlers, count }
    } else if vs.len() == 1 {
        node_out(vs[0], env, ctx, handlers, count)
    } else {
        let all = children_out(vs, vs.len() as int, env, ctx, handlers, count);
        Emitted { text: "`"@ + all.text + "`"@, handlers: all.handlers, count: all.count }
    }
}

/// The printer's state on one screen: the handler code so far, and how many inline handlers it
/// holds.
pub struct ScreenEmit {
    pub handlers: String,
    pub hcount: usize,
}

impl ScreenEmit {
    /// There are no more handlers than characters of handler code.
    pub open spec fn wf(&self) -> bool {
        self.hcount <= self.handlers@.len()
    }

    fn event(&mut self, event: &Option<Handler>, env: &ViewEnv, ctx: &Option<LoopCtx>) -> (r: String)
        requires
            old(self).wf(),
        ensures
            final(self).wf(),
            event_out(*event, env@, loop_view(*ctx), old(self).handlers@, old(self).hcount as nat)
                == (Emitted {
                text: r@,
                handlers: final(self).handlers@,
                count: final(self).hcount as nat,
            }),
    {
        match event {
            Some(h) => match h {
                Handler::Call(e) => cat3(
                    " data-onclick=\"",
                    &emit_expr(e, true, &env.endpoints),
                    "\"",
                ),
                Handler::Block(ss) => {
                    let hname = cat3(&env.screen, "_h", &usize_text(self.hcount));
                    let body = emit_h_block(ss, " ", &env.screen, &env.state_vars);
                    let kw = if stmts_have_await(ss) {
                        "async function "
                    } else {
                        "function "
                    };
                    let text;
                    match ctx {
                        Some(c) => {
                            let lookup = cat2(
                                &c.source,
                                if c.synced {
                                    ".get(__key)"
                                } else {
                                    "[__key]"
                                },
                            );
                            let key = if c.synced {
                                cat2(&c.var, ".id")
                            } else {
                                cat2("__i_", &c.var)
                            };
                            let code = cat9(
                                &self.handlers,
                                kw,
                                &hname,
                                "(__key) { const ",
                                &c.var,
                                " = ",
                                &lookup,
                                "; ",
                                &body,
                            );
                            self.handlers = cat6(
                                &code,
                                " }\non(\"",
                                &hname,
                                "\", ",
                                &hname,
                                ");\n",
                            );
                            text = cat5(
                                " data-onclick=\"",
                                &hname,
                                "\" data-key=\"${__esc(",
                                &key,
                                ")}\"",
                            );
                        },
                        None => {
                            let code = cat5(&self.handlers, kw, &hname, "() { ", &body);
                            self.handlers = cat6(
                                &code,
                                " }\non(\"",
                                &hname,
                                "\", ",
                                &hname,
                                ");\n",
                            );
                            text = cat3(" data-onclick=\"", &hname, "\"");
                        },
                    }
                    let n: usize = self.handlers.as_str().unicode_len();
                    proof {
                        reveal_strlit(");\n");
                        assert(self.hcount + 1 <= n);
                    }
                    self.hcount = self.hcount + 1;
                    text
                },
            },
            None => "".to_owned(),
        }
    }

    fn children(&mut self, vs: &Vec<ViewNode>, env: &ViewEnv, ctx: &Option<LoopCtx>) -> (r: String)
        requires
            old(self).wf(),
        ensures
            final(self).wf(),
            children_out(
                vs@,
                vs@.len() as int,
                env@,
                loop_view(*ctx),
                old(self).handlers@,
                old(self).hcount as nat,
            ) == (Emitted {
                text: r@,
                handlers: final(self).handlers@,
                count: final(self).hcount as nat,
            }),
        decreases vs, 0int,
    {
        let mut out: String = String::new();
        let mut i: usize = 0;
        while i < vs.len()
            invariant
                i <= vs.len(),
                self.wf(),
                children_out(
                    vs@,
                    i as int,
                    env@,
                    loop_view(*ctx),
                    old(self).handlers@,
                    old(self).hcount as nat,
                ) == (Emitted {
                    text: out@,
                    handlers: self.handlers@,
                    count: self.hcount as nat,
                }),
            decreases vs.len() - i,
        {
            let t = self.node(&vs[i], env, ctx);
            out = cat4(&out, "${", &t, "}");
            i = i + 1;
        }
        out
    }

    /// Prints a list of view nodes as one expression.
    pub fn nodes(&mut self, vs: &Vec<ViewNode>, env: &ViewEnv, ctx: &Option<LoopCtx>) -> (r: String)
        requires
            old(self).wf(),
        ensures
            final(self).wf(),
            nodes_out(
                vs@,
                env@,
                loop_view(*ctx),
                old(self).handlers@,
                old(self).hcount as nat,
            ) == (Emitted {
                text: r@,
                handlers: final(self).handlers@,
                count: final(self).hcount as nat,
            }),
        decreases vs, 1int,
    {
        if vs.len() == 0 {
            "\"\"".to_owned()
        } else if vs.len() == 1 {
            self.node(&vs[0], env, ctx)
        } else {
            let all = self.children(vs, env, ctx);
            cat3("`", &all, "`")
        }
    }

    /// Prints a view node, inside the loop `ctx` where there is one.
    pub fn node(&mut self, v: &ViewNode, env: &ViewEnv, ctx: &Option<LoopCtx>) -> (r: String)
        requires
            old(self).wf(),
        ensures
            final(self).wf(),
            node_out(
                *v,
                env@,
                loop_view(*ctx),
                old(self).handlers@,
                old(self).hcount as nat,
            ) == (Emitted {
                text: r@,
                handlers: final(self).handlers@,
                count: final(self).hcount as nat,
            }),
        decreases v, 0int,
    {
        match v {
            ViewNode::Element { tag, arg, style, bind, event, children } => {
                if same(tag, "link") {
                    return link_node(arg, style, event, env);
                }
                let html = map_tag(tag);
                let ev = self.event(event, env, ctx);
                let look = emit_style(tag, style, env);
                let head = cat4("`<", html, &look, &ev);
                self.handlers = cat2(&self.handlers, &bind_handler(bind, env));
                let bound = bind_attrs(tag, bind, env);
                if is_void(html) {
                    return cat4(&head, &void_attrs(tag, arg, env), &bound, " />`");
                }
                let content = emit_content(tag, arg, bind, env);
                let inner = self.children(children, env, ctx);
                cat8(&head, &bound, ">", &content, &inner, "</", html, ">`")
            },
            ViewNode::For { var, iter, body } => {
                let inner = loop_ctx(var, iter, env);
                let synced = match iter {
                    Expr::Ident(c) => env.synced.contains(c),
                    _ => false,
                };
                let b = self.nodes(body, env, &inner);
                let it = emit_expr(iter, true, &env.endpoints);
                if synced {
                    cat6(&it, ".all().map((", var, ") => ", &b, ").join(\"\")")
                } else {
                    cat8(&it, ".map((", var, ", __i_", var, ") => ", &b, ").join(\"\")")
                }
            },
            ViewNode::If { cond, then_body, else_body } => {
                let t = self.nodes(then_body, env, ctx);
                let o = self.nodes(else_body, env, ctx);
                cat7("(", &emit_expr(cond, true, &env.endpoints), " ? ", &t, " : ", &o, ")")
            },
            ViewNode::Component { name, args, .. } => emit_component(name, args, env),
        }
    }
}

} // verus!
