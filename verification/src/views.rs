//! The rules on screens: props, cells, views, bindings, navigation and component calls.
use vstd::prelude::*;
use vstd::string::*;

use crate::ast::{EnvModifier, Expr, Handler, Param, ScreenNode, StateNode, ViewNode, XeresProgram};
use crate::diagnostics::{clean, DiagView, Report};
use crate::flow::{
    check_flow_stmts, check_handler_block, check_screen_expr, flow_diags, handler_diags,
    non_bool_type, not_bool, screen_expr_diags, Site, SiteView,
};
use crate::messages;
use crate::raw::{check_raw_taint, raw_taint_diags};
use crate::resolve::{
    bind_copy, element_type, element_type_of, resolve_type, type_of, typed, Local, LocalView,
    Locals,
};
use crate::rules::{
    check_nav_target, find_param, is_named_among, is_omittable, named_among, nav_diags, omittable,
    param_index,
};
use crate::scan::{
    find_char, find_chars, find_from, find_one, lemma_find_char, lemma_find_from, trim_slice,
    trim_text,
};
use crate::table::{
    component_of, fits, get_component, has_style, has_token, is_known_type, known_type,
    style_declared, token_declared, type_compatible,
};
use crate::taint::{param_locals, param_scope};
use crate::text::{cat2, chars_of, same};

verus! {

/// What the values of the first `n` arguments report.
pub open spec fn arg_values_diags(
    args: Seq<(String, Expr)>,
    n: int,
    ls: Map<Seq<char>, LocalView>,
    s: Seq<char>,
    line: nat,
    p: XeresProgram,
) -> Seq<DiagView>
    decreases n,
{
    if n <= 0 || n > args.len() {
        clean()
    } else {
        arg_values_diags(args, n - 1, ls, s, line, p) + screen_expr_diags(
            args[n - 1].1,
            ls,
            s,
            line,
            p,
        )
    }
}

/// What the first `n` arguments of a component call report: each is a parameter, given once, and of
/// its type.
pub open spec fn component_args_diags(
    args: Seq<(String, Expr)>,
    n: int,
    name: Seq<char>,
    params: Seq<Param>,
    ls: Map<Seq<char>, LocalView>,
    line: nat,
    p: XeresProgram,
) -> Seq<DiagView>
    decreases n,
{
    if n <= 0 || n > args.len() {
        clean()
    } else {
        let f = args[n - 1].0@;
        component_args_diags(args, n - 1, name, params, ls, line, p) + (match param_index(
            params,
            f,
            0,
        ) {
            None => messages::component_no_param_diag(name, f, line),
            Some(i) => (if named_among(args, n - 1, f) {
                messages::component_twice_diag(f, name, line)
            } else {
                clean()
            }) + (match type_of(args[n - 1].1, ls, p) {
                Some(actual) => if fits(actual, params[i].ty@) {
                    clean()
                } else {
                    messages::component_arg_diag(name, f, params[i].ty@, actual, line)
                },
                None => clean(),
            }),
        })
    }
}

/// The first `n` parameters of a component that a call lacks and may not leave out.
pub open spec fn component_missing_diags(
    params: Seq<Param>,
    n: int,
    args: Seq<(String, Expr)>,
    name: Seq<char>,
    line: nat,
) -> Seq<DiagView>
    decreases n,
{
    if n <= 0 || n > params.len() {
        clean()
    } else {
        component_missing_diags(params, n - 1, args, name, line) + (if named_among(
            args,
            args.len() as int,
            params[n - 1].name@,
        ) || omittable(params[n - 1].ty@) {
            clean()
        } else {
            messages::component_missing_diag(params[n - 1].name@, name, line)
        })
    }
}

/// R17: a component call names a component and gives its parameters.
pub open spec fn component_diags(
    name: Seq<char>,
    args: Seq<(String, Expr)>,
    line: nat,
    ls: Map<Seq<char>, LocalView>,
    s: Seq<char>,
    p: XeresProgram,
) -> Seq<DiagView> {
    arg_values_diags(args, args.len() as int, ls, s, line, p) + (match component_of(p, name) {
        None => messages::unknown_component_diag(name, line),
        Some(c) => component_args_diags(args, args.len() as int, name, c.params@, ls, line, p)
            + component_missing_diags(c.params@, c.params@.len() as int, args, name, line),
    })
}

/// R17: checks a component call.
pub fn check_component(
    name: &str,
    args: &Vec<(String, Expr)>,
    line: usize,
    ls: &Locals,
    s: &str,
    p: &XeresProgram,
) -> (r: Report)
    ensures
        r@ == component_diags(name@, args@, line as nat, ls@, s@, *p),
{
    let mut out = Report::new();
    let mut i: usize = 0;
    while i < args.len()
        invariant
            i <= args.len(),
            out@ == arg_values_diags(args@, i as int, ls@, s@, line as nat, *p),
        decreases args.len() - i,
    {
        out.append(check_screen_expr(&args[i].1, ls, s, line, p));
        i = i + 1;
    }
    let d = match get_component(p, name) {
        None => messages::unknown_component(name, line),
        Some(c) => {
            let mut given = Report::new();
            let mut j: usize = 0;
            while j < args.len()
                invariant
                    j <= args.len(),
                    given@ == component_args_diags(
                        args@,
                        j as int,
                        name@,
                        c.params@,
                        ls@,
                        line as nat,
                        *p,
                    ),
                decreases args.len() - j,
            {
                let f = &args[j].0;
                let x = match find_param(&c.params, f) {
                    None => messages::component_no_param(name, f, line),
                    Some(k) => {
                        let mut both = if is_named_among(args, j, f) {
                            messages::component_twice(f, name, line)
                        } else {
                            Report::new()
                        };
                        let ty = match resolve_type(&args[j].1, ls, p) {
                            Some(actual) => if type_compatible(&actual, &c.params[k].ty) {
                                Report::new()
                            } else {
                                messages::component_arg(name, f, &c.params[k].ty, &actual, line)
                            },
                            None => Report::new(),
                        };
                        both.append(ty);
                        both
                    },
                };
                given.append(x);
                j = j + 1;
            }
            let mut missing = Report::new();
            let mut k: usize = 0;
            while k < c.params.len()
                invariant
                    k <= c.params.len(),
                    missing@ == component_missing_diags(
                        c.params@,
                        k as int,
                        args@,
                        name@,
                        line as nat,
                    ),
                decreases c.params.len() - k,
            {
                let q = &c.params[k];
                let x = if is_named_among(args, args.len(), &q.name) || is_omittable(&q.ty) {
                    Report::new()
                } else {
                    messages::component_missing(&q.name, name, line)
                };
                missing.append(x);
                k = k + 1;
            }
            given.append(missing);
            given
        },
    };
    out.append(d);
    out
}

/// R37: the `token(name)` references of a CSS text from index `i` on that no theme declares.
pub open spec fn token_diags(css: Seq<char>, i: int, line: nat, p: XeresProgram) -> Seq<DiagView>
    decreases css.len() - i,
{
    proof {
        reveal_strlit("token(");
        lemma_find_from(css, "token("@, i);
    }
    match find_from(css, "token("@, i) {
        None => clean(),
        Some(pos) => {
            proof {
                lemma_find_char(css, ')', pos + 6);
            }
            match find_char(css, ')', pos + 6) {
                None => clean(),
                Some(end) => {
                    let name = trim_text(css.subrange(pos + 6, end));
                    (if has_token(p.themes@, name) {
                        clean()
                    } else {
                        messages::unknown_token_diag(name, line)
                    }) + token_diags(css, end + 1, line, p)
                },
            }
        },
    }
}

fn check_tokens_from(b: &Vec<char>, from: usize, line: usize, p: &XeresProgram) -> (r: Report)
    requires
        from <= b@.len(),
    ensures
        r@ == token_diags(b@, from as int, line as nat, *p),
    decreases b@.len() - from,
{
    let n: usize = b.len();
    let key = chars_of("token(");
    proof {
        reveal_strlit("token(");
    }
    match find_chars(b, &key, from) {
        None => Report::new(),
        Some(pos) => match find_one(b, ')', pos + 6) {
            None => Report::new(),
            Some(end) => {
                let name = trim_slice(b, pos + 6, end);
                let mut out = if token_declared(&p.themes, &name) {
                    Report::new()
                } else {
                    messages::unknown_token(&name, line)
                };
                let rest = check_tokens_from(b, end + 1, line, p);
                out.append(rest);
                out
            },
        },
    }
}

/// R37: checks the `token(name)` references of a CSS text.
pub fn check_token_refs(css: &str, line: usize, p: &XeresProgram) -> (r: Report)
    ensures
        r@ == token_diags(css@, 0, line as nat, *p),
{
    let b = chars_of(css);
    check_tokens_from(&b, 0, line, p)
}

/// R37: an inline style refers to declared tokens, and a style name is declared; any other style
/// expression is let pass.
pub open spec fn style_diags(
    style: Option<Expr>,
    ls: Map<Seq<char>, LocalView>,
    line: nat,
    p: XeresProgram,
) -> Seq<DiagView> {
    match style {
        None => clean(),
        Some(Expr::Str(css)) => token_diags(css@, 0, line, p),
        Some(Expr::Ident(name)) => if has_style(p.styles@, name@) || ls.dom().contains(name@) {
            clean()
        } else {
            messages::unknown_style_diag(name@, line)
        },
        Some(_) => clean(),
    }
}

fn check_style(style: &Option<Expr>, ls: &Locals, line: usize, p: &XeresProgram) -> (r: Report)
    ensures
        r@ == style_diags(*style, ls@, line as nat, *p),
{
    match style {
        None => Report::new(),
        Some(e) => match e {
            Expr::Str(css) => check_token_refs(css, line, p),
            Expr::Ident(name) => if style_declared(&p.styles, name) || ls.has(name) {
                Report::new()
            } else {
                messages::unknown_style(name, line)
            },
            _ => Report::new(),
        },
    }
}

/// Whether a screen has a cell of this name.
pub open spec fn has_cell(states: Seq<StateNode>, name: Seq<char>) -> bool {
    exists|i: int| 0 <= i < states.len() && (#[trigger] states[i]).name@ == name
}

fn cell_declared(states: &Vec<StateNode>, name: &str) -> (r: bool)
    ensures
        r == has_cell(states@, name@),
{
    let mut i: usize = 0;
    while i < states.len()
        invariant
            i <= states.len(),
            forall|j: int| 0 <= j < i ==> (#[trigger] states@[j]).name@ != name@,
        decreases states.len() - i,
    {
        if same(&states[i].name, name) {
            return true;
        }
        i = i + 1;
    }
    false
}

/// Whether a control of this tag can be bound to a cell of this type.
pub open spec fn binds(tag: Seq<char>, t: Seq<char>) -> bool {
    if tag == "checkbox"@ {
        t == "Bool"@
    } else if tag == "number"@ {
        t == "Int"@ || t == "Float"@
    } else {
        t == "String"@
    }
}

/// The cell types that a control of this tag can be bound to.
pub open spec fn wanted_cell(tag: Seq<char>) -> Seq<char> {
    if tag == "checkbox"@ {
        "Bool"@
    } else if tag == "number"@ {
        "Int or Float"@
    } else {
        "String"@
    }
}

/// R13: a control is bound to a cell of its type.
pub open spec fn bind_diags(
    tag: Seq<char>,
    bind: Option<String>,
    ls: Map<Seq<char>, LocalView>,
    states: Seq<StateNode>,
    s: Seq<char>,
    line: nat,
) -> Seq<DiagView> {
    match bind {
        None => clean(),
        Some(v) => if has_cell(states, v@) && ls.dom().contains(v@) && ls[v@].ty is Some && binds(
            tag,
            ls[v@].ty->0,
        ) {
            clean()
        } else {
            messages::bind_cell_diag(v@, tag, s, wanted_cell(tag), line)
        },
    }
}

fn check_bind(
    tag: &str,
    bind: &Option<String>,
    ls: &Locals,
    states: &Vec<StateNode>,
    s: &str,
    line: usize,
) -> (r: Report)
    ensures
        r@ == bind_diags(tag@, *bind, ls@, states@, s@, line as nat),
{
    match bind {
        None => Report::new(),
        Some(v) => {
            let fit = match ls.get(v) {
                Some(l) => match &l.ty {
                    Some(t) => if same(tag, "checkbox") {
                        same(t, "Bool")
                    } else if same(tag, "number") {
                        same(t, "Int") || same(t, "Float")
                    } else {
                        same(t, "String")
                    },
                    None => false,
                },
                None => false,
            };
            if cell_declared(states, v) && fit {
                return Report::new();
            }
            let want = if same(tag, "checkbox") {
                "Bool"
            } else if same(tag, "number") {
                "Int or Float"
            } else {
                "String"
            };
            messages::bind_cell(v, tag, s, want, line)
        },
    }
}

/// What the event slot of an element reports: a link's is a navigation target.
pub open spec fn event_diags(
    tag: Seq<char>,
    event: Option<Handler>,
    ls: Map<Seq<char>, LocalView>,
    s: Seq<char>,
    line: nat,
    p: XeresProgram,
) -> Seq<DiagView> {
    if tag == "link"@ {
        match event {
            Some(Handler::Call(target)) => nav_diags(target, "`link`"@, s, line, ls, p),
            _ => messages::link_target_diag(s, line),
        }
    } else {
        match event {
            Some(Handler::Call(e)) => screen_expr_diags(e, ls, s, line, p),
            Some(Handler::Block(ss)) => handler_diags(ss@, ss@.len() as int, ls, s, line, p),
            None => clean(),
        }
    }
}

fn check_event(
    tag: &str,
    event: &Option<Handler>,
    ls: &Locals,
    s: &str,
    line: usize,
    p: &XeresProgram,
) -> (r: Report)
    ensures
        r@ == event_diags(tag@, *event, ls@, s@, line as nat, *p),
{
    if same(tag, "link") {
        match event {
            Some(Handler::Call(target)) => check_nav_target(target, "`link`", s, line, ls, p),
            _ => messages::link_target(s, line),
        }
    } else {
        match event {
            Some(Handler::Call(e)) => check_screen_expr(e, ls, s, line, p),
            Some(Handler::Block(ss)) => check_handler_block(ss, ls, s, line, p),
            None => Report::new(),
        }
    }
}

/// What a view node reports.
pub open spec fn view_diags(
    v: ViewNode,
    ls: Map<Seq<char>, LocalView>,
    states: Seq<StateNode>,
    s: Seq<char>,
    line: nat,
    p: XeresProgram,
) -> Seq<DiagView>
    decreases v, 0int,
{
    match v {
        ViewNode::Element { tag, arg, style, bind, event, children } => (match arg {
            Some(a) => screen_expr_diags(a, ls, s, line, p),
            None => clean(),
        }) + style_diags(style, ls, line, p) + bind_diags(tag@, bind, ls, states, s, line)
            + event_diags(tag@, event, ls, s, line, p) + views_diags(
            children@,
            children@.len() as int,
            ls,
            states,
            s,
            line,
            p,
        ),
        ViewNode::For { var, iter, body } => screen_expr_diags(iter, ls, s, line, p) + views_diags(
            body@,
            body@.len() as int,
            ls.insert(var@, typed(element_type(iter, ls, p))),
            states,
            s,
            line,
            p,
        ),
        ViewNode::If { cond, then_body, else_body } => screen_expr_diags(cond, ls, s, line, p)
            + (match not_bool(cond, ls, p) {
            Some(t) => messages::screen_if_cond_diag(s, t, line),
            None => clean(),
        }) + views_diags(then_body@, then_body@.len() as int, ls, states, s, line, p)
            + views_diags(else_body@, else_body@.len() as int, ls, states, s, line, p),
        ViewNode::Component { name, args, line: at } => component_diags(
            name@,
            args@,
            at as nat,
            ls,
            s,
            p,
        ),
    }
}

/// What the first `n` view nodes report.
pub open spec fn views_diags(
    vs: Seq<ViewNode>,
    n: int,
    ls: Map<Seq<char>, LocalView>,
    states: Seq<StateNode>,
    s: Seq<char>,
    line: nat,
    p: XeresProgram,
) -> Seq<DiagView>
    decreases vs, n,
{
    if n <= 0 || n > vs.len() {
        clean()
    } else {
        views_diags(vs, n - 1, ls, states, s, line, p) + view_diags(
            vs[n - 1],
            ls,
            states,
            s,
            line,
            p,
        )
    }
}

fn check_views(
    vs: &Vec<ViewNode>,
    ls: &Locals,
    states: &Vec<StateNode>,
    s: &str,
    line: usize,
    p: &XeresProgram,
) -> (r: Report)
    ensures
        r@ == views_diags(vs@, vs@.len() as int, ls@, states@, s@, line as nat, *p),
    decreases vs, 0int,
{
    let mut out = Report::new();
    let mut i: usize = 0;
    while i < vs.len()
        invariant
            i <= vs.len(),
            out@ == views_diags(vs@, i as int, ls@, states@, s@, line as nat, *p),
        decreases vs.len() - i,
    {
        let d = check_view(&vs[i], ls, states, s, line, p);
        out.append(d);
        i = i + 1;
    }
    out
}

/// Checks a view node of a screen.
pub fn check_view(
    v: &ViewNode,
    ls: &Locals,
    states: &Vec<StateNode>,
    s: &str,
    line: usize,
    p: &XeresProgram,
) -> (r: Report)
    ensures
        r@ == view_diags(*v, ls@, states@, s@, line as nat, *p),
    decreases v, 0int,
{
    match v {
        ViewNode::Element { tag, arg, style, bind, event, children } => {
            let mut out = match arg {
                Some(a) => check_screen_expr(a, ls, s, line, p),
                None => Report::new(),
            };
            out.append(check_style(style, ls, line, p));
            out.append(check_bind(tag, bind, ls, states, s, line));
            out.append(check_event(tag, event, ls, s, line, p));
            let d = check_views(children, ls, states, s, line, p);
            out.append(d);
            out
        },
        ViewNode::For { var, iter, body } => {
            let mut out = check_screen_expr(iter, ls, s, line, p);
            let inner = bind_copy(ls, var, element_type_of(iter, ls, p));
            let d = check_views(body, &inner, states, s, line, p);
            out.append(d);
            out
        },
        ViewNode::If { cond, then_body, else_body } => {
            let mut out = check_screen_expr(cond, ls, s, line, p);
            let c = match non_bool_type(cond, ls, p) {
                Some(t) => messages::screen_if_cond(s, &t, line),
                None => Report::new(),
            };
            out.append(c);
            let t = check_views(then_body, ls, states, s, line, p);
            out.append(t);
            let e = check_views(else_body, ls, states, s, line, p);
            out.append(e);
            out
        },
        ViewNode::Component { name, args, line: at } => check_component(name, args, *at, ls, s, p),
    }
}

/// R1 on the first `n` props.
pub open spec fn prop_diags(ps: Seq<Param>, n: int, s: Seq<char>, line: nat, p: XeresProgram) -> Seq<
    DiagView,
>
    decreases n,
{
    if n <= 0 || n > ps.len() {
        clean()
    } else {
        prop_diags(ps, n - 1, s, line, p) + (if known_type(ps[n - 1].ty@, p) {
            clean()
        } else {
            messages::prop_type_diag(ps[n - 1].name@, ps[n - 1].ty@, s, line)
        })
    }
}

/// The names in scope behind the first `n` cells.
pub open spec fn cell_scope(states: Seq<StateNode>, n: int, ls: Map<Seq<char>, LocalView>) -> Map<
    Seq<char>,
    LocalView,
>
    decreases n,
{
    if n <= 0 || n > states.len() {
        ls
    } else {
        cell_scope(states, n - 1, ls).insert(
            states[n - 1].name@,
            typed(Some(states[n - 1].ty@)),
        )
    }
}

/// R1 and R11 on the first `n` cells: a cell has a known type, and an initializer of that type.
pub open spec fn cell_diags(
    states: Seq<StateNode>,
    n: int,
    ls: Map<Seq<char>, LocalView>,
    s: Seq<char>,
    p: XeresProgram,
) -> Seq<DiagView>
    decreases n,
{
    if n <= 0 || n > states.len() {
        clean()
    } else {
        let st = states[n - 1];
        cell_diags(states, n - 1, ls, s, p) + (if !known_type(st.ty@, p) {
            messages::cell_type_diag(st.name@, st.ty@, s, st.line as nat)
        } else {
            match type_of(st.init, cell_scope(states, n - 1, ls), p) {
                Some(actual) => if fits(actual, st.ty@) {
                    clean()
                } else {
                    messages::cell_init_diag(st.name@, st.ty@, actual, st.line as nat)
                },
                None => clean(),
            }
        })
    }
}

/// What the loader of a screen belongs to.
pub open spec fn load_site(s: ScreenNode) -> SiteView {
    SiteView {
        env: EnvModifier::Ui,
        name: s.name@ + " on load"@,
        line: s.line as nat,
        ret: None,
    }
}

/// What a screen reports: its props, its cells, its view, its loader, and its uses of `raw`.
pub open spec fn screen_diags(s: ScreenNode, p: XeresProgram) -> Seq<DiagView> {
    let props = param_scope(s.params@, s.params@.len() as int);
    let ls = cell_scope(s.states@, s.states@.len() as int, props);
    prop_diags(s.params@, s.params@.len() as int, s.name@, s.line as nat, p) + cell_diags(
        s.states@,
        s.states@.len() as int,
        props,
        s.name@,
        p,
    ) + views_diags(s.body@, s.body@.len() as int, ls, s.states@, s.name@, s.line as nat, p)
        + flow_diags(s.load@, s.load@.len() as int, ls, load_site(s), p) + raw_taint_diags(s)
}

fn check_props(s: &ScreenNode, p: &XeresProgram) -> (r: Report)
    ensures
        r@ == prop_diags(s.params@, s.params@.len() as int, s.name@, s.line as nat, *p),
{
    let mut out = Report::new();
    let mut i: usize = 0;
    while i < s.params.len()
        invariant
            i <= s.params.len(),
            out@ == prop_diags(s.params@, i as int, s.name@, s.line as nat, *p),
        decreases s.params.len() - i,
    {
        let q = &s.params[i];
        let d = if is_known_type(&q.ty, p) {
            Report::new()
        } else {
            messages::prop_type(&q.name, &q.ty, &s.name, s.line)
        };
        out.append(d);
        i = i + 1;
    }
    out
}

/// Checks a screen.
pub fn check_screen(s: &ScreenNode, p: &XeresProgram) -> (r: Report)
    ensures
        r@ == screen_diags(*s, *p),
{
    let mut out = check_props(s, p);
    let mut ls = param_locals(&s.params);
    let ghost props = ls@;
    let mut cells = Report::new();
    let mut i: usize = 0;
    while i < s.states.len()
        invariant
            i <= s.states.len(),
            ls@ == cell_scope(s.states@, i as int, props),
            cells@ == cell_diags(s.states@, i as int, props, s.name@, *p),
        decreases s.states.len() - i,
    {
        let st = &s.states[i];
        let d = if !is_known_type(&st.ty, p) {
            messages::cell_type(&st.name, &st.ty, &s.name, st.line)
        } else {
            match resolve_type(&st.init, &ls, p) {
                Some(actual) => if type_compatible(&actual, &st.ty) {
                    Report::new()
                } else {
                    messages::cell_init(&st.name, &st.ty, &actual, st.line)
                },
                None => Report::new(),
            }
        };
        cells.append(d);
        ls.insert(st.name.clone(), Local { ty: Some(st.ty.clone()), tainted: false });
        i = i + 1;
    }
    out.append(cells);
    out.append(check_views(&s.body, &ls, &s.states, &s.name, s.line, p));
    let c = Site {
        env: EnvModifier::Ui,
        name: cat2(&s.name, " on load"),
        line: s.line,
        ret: None,
    };
    out.append(check_flow_stmts(&s.load, &ls, &c, p));
    out.append(check_raw_taint(s));
    out
}

} // verus!
