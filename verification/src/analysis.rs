//! The analysis of a whole program: every rule over every declaration, in line order.
use vstd::prelude::*;
use vstd::string::*;

use crate::ast::{
    ApiNode, ApiRoute, EndpointNode, EnumNode, EnvModifier, FunctionNode, ModelNode, Param,
    PropertyNode, ScreenNode, StyleNode, SyncedStateNode, ThemeNode, ThemeToken, XeresProgram,
};
use crate::diagnostics::{
    by_line, clean, diag_views, law_by_line, lines_ascend, sort_by_line, DiagView, Diagnostic,
    Report,
};
use crate::emit::{starts_upper, starts_upper_text};
use crate::flow::{
    actor_stmts, check_actor_scope, check_flow, check_flow_stmts, flow_diags, function_diags, Site,
    SiteView,
};
use crate::messages;
use crate::raw::{kind_label, kind_text};
use crate::resolve::{copy_opt, opt_text, typed, Local, LocalView, Locals};
use crate::scan::{split_char, split_on};
use crate::strmap::StrMap;
use crate::table::{
    env_label, env_text, get_model, is_known_type, is_model_shaped, known_type, model_of,
    model_shaped,
};
use crate::ast::prop_index;
use crate::taint::{find_secret_returns, secret_returns};
use crate::text::{cat4, same, strip_prefix, after_prefix, Parts};
use crate::uses::{functions_use_spec, stmts_use, stmts_use_spec, uses_session, Feature};
use crate::views::{check_screen, check_token_refs, screen_diags, token_diags};

verus! {

/// A finding of the analysis.
pub type SemanticError = Diagnostic;

/// What the analysis of a program gives: the findings in line order, and for each function whether
/// it returns secret-derived data.
pub struct Analysis {
    pub errors: Vec<Diagnostic>,
    pub returns_secret: StrMap<bool>,
}

/// Whether one of the first `n` has this name (style).
pub open spec fn style_named(list: Seq<StyleNode>, n: int, name: Seq<char>) -> bool {
    exists|i: int| 0 <= i < n && i < list.len() && (#[trigger] list[i]).name@ == name
}

fn is_style_named(list: &Vec<StyleNode>, n: usize, name: &str) -> (r: bool)
    ensures
        r == style_named(list@, n as int, name@),
{
    let mut i: usize = 0;
    while i < n && i < list.len()
        invariant
            i <= n,
            i <= list.len(),
            forall|j: int| 0 <= j < i ==> (#[trigger] list@[j]).name@ != name@,
        decreases list.len() - i,
    {
        if same(&list[i].name, name) {
            return true;
        }
        i = i + 1;
    }
    false
}

/// Whether one of the first `n` has this name (endpoint).
pub open spec fn endpoint_named(list: Seq<EndpointNode>, n: int, name: Seq<char>) -> bool {
    exists|i: int| 0 <= i < n && i < list.len() && (#[trigger] list[i]).name@ == name
}

fn is_endpoint_named(list: &Vec<EndpointNode>, n: usize, name: &str) -> (r: bool)
    ensures
        r == endpoint_named(list@, n as int, name@),
{
    let mut i: usize = 0;
    while i < n && i < list.len()
        invariant
            i <= n,
            i <= list.len(),
            forall|j: int| 0 <= j < i ==> (#[trigger] list@[j]).name@ != name@,
        decreases list.len() - i,
    {
        if same(&list[i].name, name) {
            return true;
        }
        i = i + 1;
    }
    false
}

/// Whether one of the first `n` has this name (enum).
pub open spec fn enum_named(list: Seq<EnumNode>, n: int, name: Seq<char>) -> bool {
    exists|i: int| 0 <= i < n && i < list.len() && (#[trigger] list[i]).name@ == name
}

fn is_enum_named(list: &Vec<EnumNode>, n: usize, name: &str) -> (r: bool)
    ensures
        r == enum_named(list@, n as int, name@),
{
    let mut i: usize = 0;
    while i < n && i < list.len()
        invariant
            i <= n,
            i <= list.len(),
            forall|j: int| 0 <= j < i ==> (#[trigger] list@[j]).name@ != name@,
        decreases list.len() - i,
    {
        if same(&list[i].name, name) {
            return true;
        }
        i = i + 1;
    }
    false
}

/// Whether one of the first `n` has this name (screen or component).
pub open spec fn screen_named(list: Seq<ScreenNode>, n: int, name: Seq<char>) -> bool {
    exists|i: int| 0 <= i < n && i < list.len() && (#[trigger] list[i]).name@ == name
}

fn is_screen_named(list: &Vec<ScreenNode>, n: usize, name: &str) -> (r: bool)
    ensures
        r == screen_named(list@, n as int, name@),
{
    let mut i: usize = 0;
    while i < n && i < list.len()
        invariant
            i <= n,
            i <= list.len(),
            forall|j: int| 0 <= j < i ==> (#[trigger] list@[j]).name@ != name@,
        decreases list.len() - i,
    {
        if same(&list[i].name, name) {
            return true;
        }
        i = i + 1;
    }
    false
}

/// Whether one of the first `n` has this name (model).
pub open spec fn model_named(list: Seq<ModelNode>, n: int, name: Seq<char>) -> bool {
    exists|i: int| 0 <= i < n && i < list.len() && (#[trigger] list[i]).name@ == name
}

fn is_model_named(list: &Vec<ModelNode>, n: usize, name: &str) -> (r: bool)
    ensures
        r == model_named(list@, n as int, name@),
{
    let mut i: usize = 0;
    while i < n && i < list.len()
        invariant
            i <= n,
            i <= list.len(),
            forall|j: int| 0 <= j < i ==> (#[trigger] list@[j]).name@ != name@,
        decreases list.len() - i,
    {
        if same(&list[i].name, name) {
            return true;
        }
        i = i + 1;
    }
    false
}

/// Whether one of the first `n` has this name (function).
pub open spec fn function_named(list: Seq<FunctionNode>, n: int, name: Seq<char>) -> bool {
    exists|i: int| 0 <= i < n && i < list.len() && (#[trigger] list[i]).name@ == name
}

fn is_function_named(list: &Vec<FunctionNode>, n: usize, name: &str) -> (r: bool)
    ensures
        r == function_named(list@, n as int, name@),
{
    let mut i: usize = 0;
    while i < n && i < list.len()
        invariant
            i <= n,
            i <= list.len(),
            forall|j: int| 0 <= j < i ==> (#[trigger] list@[j]).name@ != name@,
        decreases list.len() - i,
    {
        if same(&list[i].name, name) {
            return true;
        }
        i = i + 1;
    }
    false
}

/// Whether one of the first `n` has this name (field).
pub open spec fn field_named(list: Seq<PropertyNode>, n: int, name: Seq<char>) -> bool {
    exists|i: int| 0 <= i < n && i < list.len() && (#[trigger] list[i]).name@ == name
}

fn is_field_named(list: &Vec<PropertyNode>, n: usize, name: &str) -> (r: bool)
    ensures
        r == field_named(list@, n as int, name@),
{
    let mut i: usize = 0;
    while i < n && i < list.len()
        invariant
            i <= n,
            i <= list.len(),
            forall|j: int| 0 <= j < i ==> (#[trigger] list@[j]).name@ != name@,
        decreases list.len() - i,
    {
        if same(&list[i].name, name) {
            return true;
        }
        i = i + 1;
    }
    false
}

/// Whether one of the first `n` has this name (token).
pub open spec fn token_named(list: Seq<ThemeToken>, n: int, name: Seq<char>) -> bool {
    exists|i: int| 0 <= i < n && i < list.len() && (#[trigger] list[i]).name@ == name
}

fn is_token_named(list: &Vec<ThemeToken>, n: usize, name: &str) -> (r: bool)
    ensures
        r == token_named(list@, n as int, name@),
{
    let mut i: usize = 0;
    while i < n && i < list.len()
        invariant
            i <= n,
            i <= list.len(),
            forall|j: int| 0 <= j < i ==> (#[trigger] list@[j]).name@ != name@,
        decreases list.len() - i,
    {
        if same(&list[i].name, name) {
            return true;
        }
        i = i + 1;
    }
    false
}

/// Whether one of the first `n` has this name (parameter).
pub open spec fn param_named(list: Seq<Param>, n: int, name: Seq<char>) -> bool {
    exists|i: int| 0 <= i < n && i < list.len() && (#[trigger] list[i]).name@ == name
}

fn is_param_named(list: &Vec<Param>, n: usize, name: &str) -> (r: bool)
    ensures
        r == param_named(list@, n as int, name@),
{
    let mut i: usize = 0;
    while i < n && i < list.len()
        invariant
            i <= n,
            i <= list.len(),
            forall|j: int| 0 <= j < i ==> (#[trigger] list@[j]).name@ != name@,
        decreases list.len() - i,
    {
        if same(&list[i].name, name) {
            return true;
        }
        i = i + 1;
    }
    false
}

/// Whether one of the first `n` texts is this one.
pub open spec fn text_among(list: Seq<String>, n: int, name: Seq<char>) -> bool {
    exists|i: int| 0 <= i < n && i < list.len() && (#[trigger] list[i])@ == name
}

pub(crate) fn is_text_among(list: &Vec<String>, n: usize, name: &str) -> (r: bool)
    ensures
        r == text_among(list@, n as int, name@),
{
    let mut i: usize = 0;
    while i < n && i < list.len()
        invariant
            i <= n,
            i <= list.len(),
            forall|j: int| 0 <= j < i ==> (#[trigger] list@[j])@ != name@,
        decreases list.len() - i,
    {
        if same(&list[i], name) {
            return true;
        }
        i = i + 1;
    }
    false
}

/// Whether one of the first `n` themes that are dark, or that are not, declares a token.
pub open spec fn theme_declares(themes: Seq<ThemeNode>, n: int, dark: bool, name: Seq<char>) -> bool {
    exists|i: int|
        0 <= i < n && i < themes.len() && (#[trigger] themes[i]).is_dark == dark && token_named(
            themes[i].tokens@,
            themes[i].tokens@.len() as int,
            name,
        )
}

fn does_theme_declare(themes: &Vec<ThemeNode>, n: usize, dark: bool, name: &str) -> (r: bool)
    ensures
        r == theme_declares(themes@, n as int, dark, name@),
{
    let mut i: usize = 0;
    while i < n && i < themes.len()
        invariant
            i <= n,
            i <= themes.len(),
            forall|j: int|
                0 <= j < i ==> !((#[trigger] themes@[j]).is_dark == dark && token_named(
                    themes@[j].tokens@,
                    themes@[j].tokens@.len() as int,
                    name@,
                )),
        decreases themes.len() - i,
    {
        if themes[i].is_dark == dark && is_token_named(
            &themes[i].tokens,
            themes[i].tokens.len(),
            name,
        ) {
            return true;
        }
        i = i + 1;
    }
    false
}

/// R2 on the first `n` tokens of theme `k`: a name is declared once among the themes that are dark, and once among those that are not.
pub open spec fn tokens_diags(list: Seq<ThemeToken>, n: int, themes: Seq<ThemeNode>, k: int) -> Seq<DiagView>
    decreases n,
{
    if n <= 0 || n > list.len() {
        clean()
    } else {
        tokens_diags(list, n - 1, themes, k) + (if theme_declares(themes, k, themes[k].is_dark, list[n - 1].name@) || token_named(
            list,
            n - 1,
            list[n - 1].name@,
        ) {
            messages::token_twice_diag(
                list[n - 1].name@,
                (if themes[k].is_dark {
                    "dark"@
                } else {
                    "default"@
                }),
                list[n - 1].line as nat,
            )
        } else {
            clean()
        })
    }
}

fn check_tokens(list: &Vec<ThemeToken>, themes: &Vec<ThemeNode>, k: usize) -> (r: Report)
    requires
        k < themes@.len(),
    ensures
        r@ == tokens_diags(list@, list@.len() as int, themes@, k as int),
{
    let mut out = Report::new();
    let mut i: usize = 0;
    while i < list.len()
        invariant
            i <= list.len(),
            k < themes@.len(),
            out@ == tokens_diags(list@, i as int, themes@, k as int),
        decreases list.len() - i,
    {
        let d = if does_theme_declare(themes, k, themes[k].is_dark, &list[i].name) || is_token_named(
            list,
            i,
            &list[i].name,
        ) {
            messages::token_twice(
                &list[i].name,
                if themes[k].is_dark {
                    "dark"
                } else {
                    "default"
                },
                list[i].line,
            )
        } else {
            Report::new()
        };
        out.append(d);
        i = i + 1;
    }
    out
}

/// R2 on the tokens of the first `n` themes.
pub open spec fn themes_diags(list: Seq<ThemeNode>, n: int) -> Seq<DiagView>
    decreases n,
{
    if n <= 0 || n > list.len() {
        clean()
    } else {
        themes_diags(list, n - 1) + tokens_diags(list[n - 1].tokens@, list[n - 1].tokens@.len() as int, list, n - 1)
    }
}

fn check_themes(list: &Vec<ThemeNode>) -> (r: Report)
    ensures
        r@ == themes_diags(list@, list@.len() as int),
{
    let mut out = Report::new();
    let mut i: usize = 0;
    while i < list.len()
        invariant
            i <= list.len(),
            out@ == themes_diags(list@, i as int),
        decreases list.len() - i,
    {
        let d = check_tokens(&list[i].tokens, list, i);
        out.append(d);
        i = i + 1;
    }
    out
}

/// R2 on the first `n` named styles.
pub open spec fn styles_diags(list: Seq<StyleNode>, n: int) -> Seq<DiagView>
    decreases n,
{
    if n <= 0 || n > list.len() {
        clean()
    } else {
        styles_diags(list, n - 1) + (if style_named(list, n - 1, list[n - 1].name@) {
            messages::style_twice_diag(list[n - 1].name@, list[n - 1].line as nat)
        } else {
            clean()
        })
    }
}

fn check_styles(list: &Vec<StyleNode>) -> (r: Report)
    ensures
        r@ == styles_diags(list@, list@.len() as int),
{
    let mut out = Report::new();
    let mut i: usize = 0;
    while i < list.len()
        invariant
            i <= list.len(),
            out@ == styles_diags(list@, i as int),
        decreases list.len() - i,
    {
        let d = if is_style_named(list, i, &list[i].name) {
            messages::style_twice(&list[i].name, list[i].line)
        } else {
            Report::new()
        };
        out.append(d);
        i = i + 1;
    }
    out
}

/// R37 on the first `n` named styles.
pub open spec fn style_tokens_diags(list: Seq<StyleNode>, n: int, p: XeresProgram) -> Seq<DiagView>
    decreases n,
{
    if n <= 0 || n > list.len() {
        clean()
    } else {
        style_tokens_diags(list, n - 1, p) + token_diags(list[n - 1].css@, 0, list[n - 1].line as nat, p)
    }
}

fn check_style_tokens(list: &Vec<StyleNode>, p: &XeresProgram) -> (r: Report)
    ensures
        r@ == style_tokens_diags(list@, list@.len() as int, *p),
{
    let mut out = Report::new();
    let mut i: usize = 0;
    while i < list.len()
        invariant
            i <= list.len(),
            out@ == style_tokens_diags(list@, i as int, *p),
        decreases list.len() - i,
    {
        let d = check_token_refs(&list[i].css, list[i].line, p);
        out.append(d);
        i = i + 1;
    }
    out
}

/// R2 on the first `n` endpoints.
pub open spec fn endpoints_diags(list: Seq<EndpointNode>, n: int) -> Seq<DiagView>
    decreases n,
{
    if n <= 0 || n > list.len() {
        clean()
    } else {
        endpoints_diags(list, n - 1) + (if endpoint_named(list, n - 1, list[n - 1].name@) {
            messages::endpoint_twice_diag(list[n - 1].name@, list[n - 1].line as nat)
        } else {
            clean()
        })
    }
}

fn check_endpoints(list: &Vec<EndpointNode>) -> (r: Report)
    ensures
        r@ == endpoints_diags(list@, list@.len() as int),
{
    let mut out = Report::new();
    let mut i: usize = 0;
    while i < list.len()
        invariant
            i <= list.len(),
            out@ == endpoints_diags(list@, i as int),
        decreases list.len() - i,
    {
        let d = if is_endpoint_named(list, i, &list[i].name) {
            messages::endpoint_twice(&list[i].name, list[i].line)
        } else {
            Report::new()
        };
        out.append(d);
        i = i + 1;
    }
    out
}

/// R2 on the first `n` variants of an enum.
pub open spec fn variants_diags(list: Seq<String>, n: int, name: Seq<char>, line: nat) -> Seq<DiagView>
    decreases n,
{
    if n <= 0 || n > list.len() {
        clean()
    } else {
        variants_diags(list, n - 1, name, line) + (if text_among(list, n - 1, list[n - 1]@) {
            messages::variant_twice_diag(list[n - 1]@, name, line)
        } else {
            clean()
        })
    }
}

fn check_variants(list: &Vec<String>, name: &str, line: usize) -> (r: Report)
    ensures
        r@ == variants_diags(list@, list@.len() as int, name@, line as nat),
{
    let mut out = Report::new();
    let mut i: usize = 0;
    while i < list.len()
        invariant
            i <= list.len(),
            out@ == variants_diags(list@, i as int, name@, line as nat),
        decreases list.len() - i,
    {
        let d = if is_text_among(list, i, &list[i]) {
            messages::variant_twice(&list[i], name, line)
        } else {
            Report::new()
        };
        out.append(d);
        i = i + 1;
    }
    out
}

/// R2 on the first `n` enums: the name, then the variants.
pub open spec fn enums_diags(list: Seq<EnumNode>, n: int) -> Seq<DiagView>
    decreases n,
{
    if n <= 0 || n > list.len() {
        clean()
    } else {
        let e = list[n - 1];
        enums_diags(list, n - 1) + (if enum_named(list, n - 1, e.name@) {
            messages::type_twice_diag(e.name@, e.line as nat)
        } else {
            clean()
        }) + variants_diags(e.variants@, e.variants@.len() as int, e.name@, e.line as nat)
    }
}

fn check_enums(list: &Vec<EnumNode>) -> (r: Report)
    ensures
        r@ == enums_diags(list@, list@.len() as int),
{
    let mut out = Report::new();
    let mut i: usize = 0;
    while i < list.len()
        invariant
            i <= list.len(),
            out@ == enums_diags(list@, i as int),
        decreases list.len() - i,
    {
        let e = &list[i];
        let d = if is_enum_named(list, i, &e.name) {
            messages::type_twice(&e.name, e.line)
        } else {
            Report::new()
        };
        out.append(d);
        out.append(check_variants(&e.variants, &e.name, e.line));
        i = i + 1;
    }
    out
}

/// R2 and R17 on the first `n` screens and components: one namespace, and a component is
/// capitalized.
pub open spec fn screen_names_diags(list: Seq<ScreenNode>, n: int) -> Seq<DiagView>
    decreases n,
{
    if n <= 0 || n > list.len() {
        clean()
    } else {
        let s = list[n - 1];
        screen_names_diags(list, n - 1) + (if screen_named(list, n - 1, s.name@) {
            messages::screen_twice_diag(kind_text(s), s.name@, s.line as nat)
        } else {
            clean()
        }) + (if s.is_component && !starts_upper_text(s.name@) {
            messages::component_case_diag(s.name@, s.line as nat)
        } else {
            clean()
        })
    }
}

fn check_screen_names(list: &Vec<ScreenNode>) -> (r: Report)
    ensures
        r@ == screen_names_diags(list@, list@.len() as int),
{
    let mut out = Report::new();
    let mut i: usize = 0;
    while i < list.len()
        invariant
            i <= list.len(),
            out@ == screen_names_diags(list@, i as int),
        decreases list.len() - i,
    {
        let s = &list[i];
        let d = if is_screen_named(list, i, &s.name) {
            messages::screen_twice(kind_label(s), &s.name, s.line)
        } else {
            Report::new()
        };
        out.append(d);
        let c = if s.is_component && !starts_upper(&s.name) {
            messages::component_case(&s.name, s.line)
        } else {
            Report::new()
        };
        out.append(c);
        i = i + 1;
    }
    out
}

/// R2 on the first `n` fields of a model.
pub open spec fn fields_diags(list: Seq<PropertyNode>, n: int, model: Seq<char>) -> Seq<DiagView>
    decreases n,
{
    if n <= 0 || n > list.len() {
        clean()
    } else {
        fields_diags(list, n - 1, model) + (if field_named(list, n - 1, list[n - 1].name@) {
            messages::model_field_twice_diag(list[n - 1].name@, model, list[n - 1].line as nat)
        } else {
            clean()
        })
    }
}

fn check_fields(list: &Vec<PropertyNode>, model: &str) -> (r: Report)
    ensures
        r@ == fields_diags(list@, list@.len() as int, model@),
{
    let mut out = Report::new();
    let mut i: usize = 0;
    while i < list.len()
        invariant
            i <= list.len(),
            out@ == fields_diags(list@, i as int, model@),
        decreases list.len() - i,
    {
        let d = if is_field_named(list, i, &list[i].name) {
            messages::model_field_twice(&list[i].name, model, list[i].line)
        } else {
            Report::new()
        };
        out.append(d);
        i = i + 1;
    }
    out
}

/// R2 on the first `n` models: the name, then the fields.
pub open spec fn models_diags(list: Seq<ModelNode>, n: int) -> Seq<DiagView>
    decreases n,
{
    if n <= 0 || n > list.len() {
        clean()
    } else {
        let m = list[n - 1];
        models_diags(list, n - 1) + (if model_named(list, n - 1, m.name@) {
            messages::model_twice_diag(m.name@, m.line as nat)
        } else {
            clean()
        }) + fields_diags(m.properties@, m.properties@.len() as int, m.name@)
    }
}

fn check_models(list: &Vec<ModelNode>) -> (r: Report)
    ensures
        r@ == models_diags(list@, list@.len() as int),
{
    let mut out = Report::new();
    let mut i: usize = 0;
    while i < list.len()
        invariant
            i <= list.len(),
            out@ == models_diags(list@, i as int),
        decreases list.len() - i,
    {
        let m = &list[i];
        let d = if is_model_named(list, i, &m.name) {
            messages::model_twice(&m.name, m.line)
        } else {
            Report::new()
        };
        out.append(d);
        out.append(check_fields(&m.properties, &m.name));
        i = i + 1;
    }
    out
}

/// R2 on the first `n` functions.
pub open spec fn functions_diags(list: Seq<FunctionNode>, n: int) -> Seq<DiagView>
    decreases n,
{
    if n <= 0 || n > list.len() {
        clean()
    } else {
        functions_diags(list, n - 1) + (if function_named(list, n - 1, list[n - 1].name@) {
            messages::function_twice_diag(list[n - 1].name@, list[n - 1].line as nat)
        } else {
            clean()
        })
    }
}

fn check_functions(list: &Vec<FunctionNode>) -> (r: Report)
    ensures
        r@ == functions_diags(list@, list@.len() as int),
{
    let mut out = Report::new();
    let mut i: usize = 0;
    while i < list.len()
        invariant
            i <= list.len(),
            out@ == functions_diags(list@, i as int),
        decreases list.len() - i,
    {
        let d = if is_function_named(list, i, &list[i].name) {
            messages::function_twice(&list[i].name, list[i].line)
        } else {
            Report::new()
        };
        out.append(d);
        i = i + 1;
    }
    out
}

/// R1 on the first `n` fields of a model.
pub open spec fn field_types_diags(list: Seq<PropertyNode>, n: int, model: Seq<char>, p: XeresProgram) -> Seq<DiagView>
    decreases n,
{
    if n <= 0 || n > list.len() {
        clean()
    } else {
        field_types_diags(list, n - 1, model, p) + (if known_type(list[n - 1].data_type@, p) {
            clean()
        } else {
            messages::model_field_type_diag(
                model,
                list[n - 1].name@,
                list[n - 1].data_type@,
                list[n - 1].line as nat,
            )
        })
    }
}

fn check_field_types(list: &Vec<PropertyNode>, model: &str, p: &XeresProgram) -> (r: Report)
    ensures
        r@ == field_types_diags(list@, list@.len() as int, model@, *p),
{
    let mut out = Report::new();
    let mut i: usize = 0;
    while i < list.len()
        invariant
            i <= list.len(),
            out@ == field_types_diags(list@, i as int, model@, *p),
        decreases list.len() - i,
    {
        let d = if is_known_type(&list[i].data_type, p) {
            Report::new()
        } else {
            messages::model_field_type(model, &list[i].name, &list[i].data_type, list[i].line)
        };
        out.append(d);
        i = i + 1;
    }
    out
}

/// R1 on the fields of the first `n` models.
pub open spec fn model_types_diags(list: Seq<ModelNode>, n: int, p: XeresProgram) -> Seq<DiagView>
    decreases n,
{
    if n <= 0 || n > list.len() {
        clean()
    } else {
        model_types_diags(list, n - 1, p) + field_types_diags(
            list[n - 1].properties@,
            list[n - 1].properties@.len() as int,
            list[n - 1].name@,
            p,
        )
    }
}

fn check_model_types(list: &Vec<ModelNode>, p: &XeresProgram) -> (r: Report)
    ensures
        r@ == model_types_diags(list@, list@.len() as int, *p),
{
    let mut out = Report::new();
    let mut i: usize = 0;
    while i < list.len()
        invariant
            i <= list.len(),
            out@ == model_types_diags(list@, i as int, *p),
        decreases list.len() - i,
    {
        let d = check_field_types(&list[i].properties, &list[i].name, p);
        out.append(d);
        i = i + 1;
    }
    out
}

/// Whether a model has an `id: String` field.
pub open spec fn has_merge_key(m: ModelNode) -> bool {
    match prop_index(m.properties@, "id"@) {
        Some(i) => m.properties@[i].data_type@ == "String"@,
        None => false,
    }
}

fn merge_key_declared(m: &ModelNode) -> (r: bool)
    ensures
        r == has_merge_key(*m),
{
    match m.field("id") {
        Some(f) => same(&f.data_type, "String"),
        None => false,
    }
}

/// R1 and R10 on a synced collection: a known type, and a model that can be merged by its `id`.
pub open spec fn collection_decl_diags(s: SyncedStateNode, p: XeresProgram) -> Seq<DiagView> {
    if !known_type(s.collection_type@, p) {
        messages::synced_type_diag(s.name@, s.collection_type@, s.line as nat)
    } else {
        match model_of(p, s.collection_type@) {
            Some(m) => if has_merge_key(m) {
                clean()
            } else {
                messages::sync_key_diag(s.name@, s.collection_type@, s.line as nat)
            },
            None => clean(),
        }
    }
}

fn check_collection_decl(s: &SyncedStateNode, p: &XeresProgram) -> (r: Report)
    ensures
        r@ == collection_decl_diags(*s, *p),
{
    if !is_known_type(&s.collection_type, p) {
        messages::synced_type(&s.name, &s.collection_type, s.line)
    } else {
        match get_model(p, &s.collection_type) {
            Some(m) => if merge_key_declared(m) {
                Report::new()
            } else {
                messages::sync_key(&s.name, &s.collection_type, s.line)
            },
            None => Report::new(),
        }
    }
}

/// R1 and R10 on the first `n` synced collections.
pub open spec fn collections_diags(list: Seq<SyncedStateNode>, n: int, p: XeresProgram) -> Seq<DiagView>
    decreases n,
{
    if n <= 0 || n > list.len() {
        clean()
    } else {
        collections_diags(list, n - 1, p) + collection_decl_diags(list[n - 1], p)
    }
}

fn check_collections(list: &Vec<SyncedStateNode>, p: &XeresProgram) -> (r: Report)
    ensures
        r@ == collections_diags(list@, list@.len() as int, *p),
{
    let mut out = Report::new();
    let mut i: usize = 0;
    while i < list.len()
        invariant
            i <= list.len(),
            out@ == collections_diags(list@, i as int, *p),
        decreases list.len() - i,
    {
        let d = check_collection_decl(&list[i], p);
        out.append(d);
        i = i + 1;
    }
    out
}

/// R1 on the first `n` parameters of a function.
pub open spec fn param_types_diags(list: Seq<Param>, n: int, name: Seq<char>, line: nat, p: XeresProgram) -> Seq<DiagView>
    decreases n,
{
    if n <= 0 || n > list.len() {
        clean()
    } else {
        param_types_diags(list, n - 1, name, line, p) + (if known_type(list[n - 1].ty@, p) {
            clean()
        } else {
            messages::param_type_diag(list[n - 1].name@, list[n - 1].ty@, name, line)
        })
    }
}

fn check_param_types(list: &Vec<Param>, name: &str, line: usize, p: &XeresProgram) -> (r: Report)
    ensures
        r@ == param_types_diags(list@, list@.len() as int, name@, line as nat, *p),
{
    let mut out = Report::new();
    let mut i: usize = 0;
    while i < list.len()
        invariant
            i <= list.len(),
            out@ == param_types_diags(list@, i as int, name@, line as nat, *p),
        decreases list.len() - i,
    {
        let d = if is_known_type(&list[i].ty, p) {
            Report::new()
        } else {
            messages::param_type(&list[i].name, &list[i].ty, name, line)
        };
        out.append(d);
        i = i + 1;
    }
    out
}

/// R1 on a return type.
pub open spec fn return_type_diags(ret: Option<String>, name: Seq<char>, line: nat, p: XeresProgram) -> Seq<
    DiagView,
> {
    match ret {
        Some(t) => if known_type(t@, p) {
            clean()
        } else {
            messages::return_type_diag(t@, name, line)
        },
        None => clean(),
    }
}

fn check_return_decl(ret: &Option<String>, name: &str, line: usize, p: &XeresProgram) -> (r: Report)
    ensures
        r@ == return_type_diags(*ret, name@, line as nat, *p),
{
    match ret {
        Some(t) => if is_known_type(t, p) {
            Report::new()
        } else {
            messages::return_type(t, name, line)
        },
        None => Report::new(),
    }
}

/// R1 on the signatures of the first `n` functions.
pub open spec fn signatures_diags(list: Seq<FunctionNode>, n: int, p: XeresProgram) -> Seq<DiagView>
    decreases n,
{
    if n <= 0 || n > list.len() {
        clean()
    } else {
        let f = list[n - 1];
        signatures_diags(list, n - 1, p) + param_types_diags(
            f.params@,
            f.params@.len() as int,
            f.name@,
            f.line as nat,
            p,
        ) + return_type_diags(f.return_type, f.name@, f.line as nat, p)
    }
}

fn check_signatures(list: &Vec<FunctionNode>, p: &XeresProgram) -> (r: Report)
    ensures
        r@ == signatures_diags(list@, list@.len() as int, *p),
{
    let mut out = Report::new();
    let mut i: usize = 0;
    while i < list.len()
        invariant
            i <= list.len(),
            out@ == signatures_diags(list@, i as int, *p),
        decreases list.len() - i,
    {
        let f = &list[i];
        out.append(check_param_types(&f.params, &f.name, f.line, p));
        out.append(check_return_decl(&f.return_type, &f.name, f.line, p));
        i = i + 1;
    }
    out
}

/// R24 and R25 on a function: an `auth` function runs on the server, consults `session`, and scopes
/// its queries to the actor.
pub open spec fn auth_fn_diags(f: FunctionNode) -> Seq<DiagView> {
    if !f.is_auth {
        clean()
    } else {
        (if f.env == EnvModifier::Server {
            clean()
        } else {
            messages::auth_fn_env_diag(f.name@, env_text(f.env), f.line as nat)
        }) + (if stmts_use_spec(f.body@, Feature::Session) {
            clean()
        } else {
            messages::auth_fn_session_diag(f.name@, f.line as nat)
        }) + actor_stmts(f.body@, f.body@.len() as int, f.name@, f.line as nat)
    }
}

fn check_auth_fn(f: &FunctionNode) -> (r: Report)
    ensures
        r@ == auth_fn_diags(*f),
{
    if !f.is_auth {
        return Report::new();
    }
    let mut out = if f.env == EnvModifier::Server {
        Report::new()
    } else {
        messages::auth_fn_env(&f.name, env_label(f.env), f.line)
    };
    let s = if stmts_use(&f.body, Feature::Session) {
        Report::new()
    } else {
        messages::auth_fn_session(&f.name, f.line)
    };
    out.append(s);
    out.append(check_actor_scope(&f.body, &f.name, f.line));
    out
}

/// R24 and R25 on the first `n` functions.
pub open spec fn auth_fns_diags(list: Seq<FunctionNode>, n: int) -> Seq<DiagView>
    decreases n,
{
    if n <= 0 || n > list.len() {
        clean()
    } else {
        auth_fns_diags(list, n - 1) + auth_fn_diags(list[n - 1])
    }
}

fn check_auth_fns(list: &Vec<FunctionNode>) -> (r: Report)
    ensures
        r@ == auth_fns_diags(list@, list@.len() as int),
{
    let mut out = Report::new();
    let mut i: usize = 0;
    while i < list.len()
        invariant
            i <= list.len(),
            out@ == auth_fns_diags(list@, i as int),
        decreases list.len() - i,
    {
        let d = check_auth_fn(&list[i]);
        out.append(d);
        i = i + 1;
    }
    out
}

/// What the bodies of the first `n` functions report.
pub open spec fn bodies_diags(list: Seq<FunctionNode>, n: int, p: XeresProgram) -> Seq<DiagView>
    decreases n,
{
    if n <= 0 || n > list.len() {
        clean()
    } else {
        bodies_diags(list, n - 1, p) + function_diags(list[n - 1], p)
    }
}

fn check_bodies(list: &Vec<FunctionNode>, p: &XeresProgram) -> (r: Report)
    ensures
        r@ == bodies_diags(list@, list@.len() as int, *p),
{
    let mut out = Report::new();
    let mut i: usize = 0;
    while i < list.len()
        invariant
            i <= list.len(),
            out@ == bodies_diags(list@, i as int, *p),
        decreases list.len() - i,
    {
        let d = check_flow(&list[i], p);
        out.append(d);
        i = i + 1;
    }
    out
}

/// What the body of an inbound route belongs to: the server.
pub open spec fn route_site(base: Seq<char>, route: ApiRoute) -> SiteView {
    SiteView {
        env: EnvModifier::Server,
        name: route.method@ + " "@ + base + route.path@,
        line: route.line as nat,
        ret: opt_text(route.return_type),
    }
}

/// The names in scope in the body of an inbound route: the request body.
pub open spec fn route_scope(route: ApiRoute) -> Map<Seq<char>, LocalView> {
    match route.body {
        Some(b) => Map::empty().insert(b.name@, typed(Some(b.ty@))),
        None => Map::empty(),
    }
}

/// What an inbound route reports: its types, and its body as one of a server function.
pub open spec fn route_diags(base: Seq<char>, route: ApiRoute, p: XeresProgram) -> Seq<DiagView> {
    let c = route_site(base, route);
    (match route.body {
        Some(b) => if known_type(b.ty@, p) {
            clean()
        } else {
            messages::param_type_diag(b.name@, b.ty@, c.name, c.line)
        },
        None => clean(),
    }) + return_type_diags(route.return_type, c.name, c.line, p) + flow_diags(
        route.body_stmts@,
        route.body_stmts@.len() as int,
        route_scope(route),
        c,
        p,
    )
}

fn check_route(base: &str, route: &ApiRoute, p: &XeresProgram) -> (r: Report)
    ensures
        r@ == route_diags(base@, *route, *p),
{
    let c = Site {
        env: EnvModifier::Server,
        name: cat4(&route.method, " ", base, &route.path),
        line: route.line,
        ret: copy_opt(&route.return_type),
    };
    let mut ls: Locals = StrMap::new();
    let mut out = match &route.body {
        Some(b) => {
            ls.insert(b.name.clone(), Local { ty: Some(b.ty.clone()), tainted: false });
            if is_known_type(&b.ty, p) {
                Report::new()
            } else {
                messages::param_type(&b.name, &b.ty, &c.name, c.line)
            }
        },
        None => Report::new(),
    };
    out.append(check_return_decl(&route.return_type, &c.name, c.line, p));
    out.append(check_flow_stmts(&route.body_stmts, &ls, &c, p));
    out
}

/// What the first `n` routes of an inbound API report.
pub open spec fn routes_diags(list: Seq<ApiRoute>, n: int, base: Seq<char>, p: XeresProgram) -> Seq<DiagView>
    decreases n,
{
    if n <= 0 || n > list.len() {
        clean()
    } else {
        routes_diags(list, n - 1, base, p) + route_diags(base, list[n - 1], p)
    }
}

fn check_routes(list: &Vec<ApiRoute>, base: &str, p: &XeresProgram) -> (r: Report)
    ensures
        r@ == routes_diags(list@, list@.len() as int, base@, *p),
{
    let mut out = Report::new();
    let mut i: usize = 0;
    while i < list.len()
        invariant
            i <= list.len(),
            out@ == routes_diags(list@, i as int, base@, *p),
        decreases list.len() - i,
    {
        let d = check_route(base, &list[i], p);
        out.append(d);
        i = i + 1;
    }
    out
}

/// What the first `n` inbound APIs report.
pub open spec fn apis_diags(list: Seq<ApiNode>, n: int, p: XeresProgram) -> Seq<DiagView>
    decreases n,
{
    if n <= 0 || n > list.len() {
        clean()
    } else {
        apis_diags(list, n - 1, p) + routes_diags(
            list[n - 1].routes@,
            list[n - 1].routes@.len() as int,
            list[n - 1].base@,
            p,
        )
    }
}

fn check_apis(list: &Vec<ApiNode>, p: &XeresProgram) -> (r: Report)
    ensures
        r@ == apis_diags(list@, list@.len() as int, *p),
{
    let mut out = Report::new();
    let mut i: usize = 0;
    while i < list.len()
        invariant
            i <= list.len(),
            out@ == apis_diags(list@, i as int, *p),
        decreases list.len() - i,
    {
        let d = check_routes(&list[i].routes, &list[i].base, p);
        out.append(d);
        i = i + 1;
    }
    out
}

/// What the first `n` screens report.
pub open spec fn screens_diags(list: Seq<ScreenNode>, n: int, p: XeresProgram) -> Seq<DiagView>
    decreases n,
{
    if n <= 0 || n > list.len() {
        clean()
    } else {
        screens_diags(list, n - 1, p) + screen_diags(list[n - 1], p)
    }
}

fn check_screens(list: &Vec<ScreenNode>, p: &XeresProgram) -> (r: Report)
    ensures
        r@ == screens_diags(list@, list@.len() as int, *p),
{
    let mut out = Report::new();
    let mut i: usize = 0;
    while i < list.len()
        invariant
            i <= list.len(),
            out@ == screens_diags(list@, i as int, *p),
        decreases list.len() - i,
    {
        let d = check_screen(&list[i], p);
        out.append(d);
        i = i + 1;
    }
    out
}

/// The name of the default route: the first screen from index `i` on that is no component and takes
/// no props.
pub open spec fn default_route(list: Seq<ScreenNode>, i: int) -> Option<Seq<char>>
    decreases list.len() - i,
{
    if i < 0 || i >= list.len() {
        None
    } else if !list[i].is_component && list[i].params@.len() == 0 {
        Some(list[i].name@)
    } else {
        default_route(list, i + 1)
    }
}

fn find_default_route(list: &Vec<ScreenNode>) -> (r: Option<String>)
    ensures
        opt_text(r) == default_route(list@, 0),
{
    let mut i: usize = 0;
    while i < list.len()
        invariant
            i <= list.len(),
            default_route(list@, 0) == default_route(list@, i as int),
        decreases list.len() - i,
    {
        if !list[i].is_component && list[i].params.len() == 0 {
            return Some(list[i].name.clone());
        }
        i = i + 1;
    }
    None
}

/// R31 on a screen: a protected route takes no props, has a session to be gated by, and is not the
/// default route.
pub open spec fn auth_screen_diags(s: ScreenNode, root: Option<Seq<char>>, session: bool) -> Seq<
    DiagView,
> {
    if !s.is_auth {
        clean()
    } else if s.is_component {
        messages::auth_component_diag(s.name@, s.line as nat)
    } else {
        (if s.params@.len() == 0 {
            clean()
        } else {
            messages::auth_props_diag(s.name@, s.line as nat)
        }) + (if session {
            clean()
        } else {
            messages::auth_session_diag(s.name@, s.line as nat)
        }) + (if root == Some(s.name@) {
            messages::auth_root_diag(s.name@, s.line as nat)
        } else {
            clean()
        })
    }
}

fn check_auth_screen(s: &ScreenNode, root: &Option<String>, session: bool) -> (r: Report)
    ensures
        r@ == auth_screen_diags(*s, opt_text(*root), session),
{
    if !s.is_auth {
        return Report::new();
    }
    if s.is_component {
        return messages::auth_component(&s.name, s.line);
    }
    let mut out = if s.params.len() == 0 {
        Report::new()
    } else {
        messages::auth_props(&s.name, s.line)
    };
    let d = if session {
        Report::new()
    } else {
        messages::auth_session(&s.name, s.line)
    };
    out.append(d);
    let is_root = match root {
        Some(n) => same(n, &s.name),
        None => false,
    };
    let e = if is_root {
        messages::auth_root(&s.name, s.line)
    } else {
        Report::new()
    };
    out.append(e);
    out
}

/// R31 on the first `n` screens.
pub open spec fn auth_screens_diags(list: Seq<ScreenNode>, n: int, root: Option<Seq<char>>, session: bool) -> Seq<DiagView>
    decreases n,
{
    if n <= 0 || n > list.len() {
        clean()
    } else {
        auth_screens_diags(list, n - 1, root, session) + auth_screen_diags(list[n - 1], root, session)
    }
}

fn check_auth_screens(list: &Vec<ScreenNode>, root: &Option<String>, session: bool) -> (r: Report)
    ensures
        r@ == auth_screens_diags(list@, list@.len() as int, opt_text(*root), session),
{
    let mut out = Report::new();
    let mut i: usize = 0;
    while i < list.len()
        invariant
            i <= list.len(),
            out@ == auth_screens_diags(list@, i as int, opt_text(*root), session),
        decreases list.len() - i,
    {
        let d = check_auth_screen(&list[i], root, session);
        out.append(d);
        i = i + 1;
    }
    out
}

/// The names of the `:name` segments among the first `n` segments of a pattern.
pub open spec fn segment_names(segs: Seq<Seq<char>>, n: int) -> Seq<Seq<char>>
    decreases n,
{
    if n <= 0 || n > segs.len() {
        Seq::empty()
    } else {
        match after_prefix(segs[n - 1], ":"@) {
            Some(name) => segment_names(segs, n - 1).push(name),
            None => segment_names(segs, n - 1),
        }
    }
}

/// The names that a route pattern binds: `/post/:id` binds `id`.
pub open spec fn pattern_names(pattern: Seq<char>) -> Seq<Seq<char>> {
    segment_names(split_on(pattern, '/'), split_on(pattern, '/').len() as int)
}

/// The names that a route pattern binds.
pub fn route_params(pattern: &str) -> (r: Parts)
    ensures
        r@ == pattern_names(pattern@),
{
    let segs = split_char(pattern, '/');
    let mut out = Parts::new();
    let mut i: usize = 0;
    while i < segs.len()
        invariant
            segs@ == split_on(pattern@, '/'),
            i <= segs@.len(),
            out@ == segment_names(segs@, i as int),
        decreases segs@.len() - i,
    {
        if let Some(name) = strip_prefix(segs.get(i), ":") {
            out.push(name.to_owned());
        }
        i = i + 1;
    }
    out
}

/// R32: the first `n` names that a pattern binds and that are no props.
pub open spec fn unmatched_diags(pat: Seq<Seq<char>>, n: int, s: ScreenNode) -> Seq<DiagView>
    decreases n,
{
    if n <= 0 || n > pat.len() {
        clean()
    } else {
        unmatched_diags(pat, n - 1, s) + (if param_named(
            s.params@,
            s.params@.len() as int,
            pat[n - 1],
        ) {
            clean()
        } else {
            messages::route_no_prop_diag(pat[n - 1], s.name@, s.line as nat)
        })
    }
}

/// R32: the first `n` props that the pattern does not bind, or that no URL segment can give.
pub open spec fn route_props_diags(
    ps: Seq<Param>,
    n: int,
    pat: Seq<Seq<char>>,
    pattern: Seq<char>,
    name: Seq<char>,
    line: nat,
) -> Seq<DiagView>
    decreases n,
{
    if n <= 0 || n > ps.len() {
        clean()
    } else {
        let q = ps[n - 1];
        route_props_diags(ps, n - 1, pat, pattern, name, line) + (if pat.contains(q.name@) {
            clean()
        } else {
            messages::route_unbound_diag(q.name@, name, pattern, line)
        }) + (if q.ty@ == "String"@ || q.ty@ == "Int"@ {
            clean()
        } else {
            messages::route_prop_type_diag(q.name@, name, q.ty@, line)
        })
    }
}

/// R32 on a screen: its route pattern binds exactly its props, each from one URL segment.
pub open spec fn route_decl_diags(s: ScreenNode) -> Seq<DiagView> {
    match s.route {
        None => clean(),
        Some(pattern) => if s.is_component {
            messages::route_component_diag(s.name@, s.line as nat)
        } else {
            let pat = pattern_names(pattern@);
            (if pat.len() == 0 {
                messages::route_static_diag(pattern@, s.name@, s.line as nat)
            } else {
                clean()
            }) + unmatched_diags(pat, pat.len() as int, s) + route_props_diags(
                s.params@,
                s.params@.len() as int,
                pat,
                pattern@,
                s.name@,
                s.line as nat,
            )
        },
    }
}

fn check_route_decl(s: &ScreenNode) -> (r: Report)
    ensures
        r@ == route_decl_diags(*s),
{
    match &s.route {
        None => Report::new(),
        Some(pattern) => {
            if s.is_component {
                return messages::route_component(&s.name, s.line);
            }
            let pat = route_params(pattern);
            let mut out = if pat.len() == 0 {
                messages::route_static(pattern, &s.name, s.line)
            } else {
                Report::new()
            };
            let mut unmatched = Report::new();
            let mut i: usize = 0;
            while i < pat.len()
                invariant
                    i <= pat@.len(),
                    unmatched@ == unmatched_diags(pat@, i as int, *s),
                decreases pat@.len() - i,
            {
                let d = if is_param_named(&s.params, s.params.len(), pat.get(i)) {
                    Report::new()
                } else {
                    messages::route_no_prop(pat.get(i), &s.name, s.line)
                };
                unmatched.append(d);
                i = i + 1;
            }
            out.append(unmatched);
            let mut props = Report::new();
            let mut j: usize = 0;
            while j < s.params.len()
                invariant
                    j <= s.params.len(),
                    props@ == route_props_diags(
                        s.params@,
                        j as int,
                        pat@,
                        pattern@,
                        s.name@,
                        s.line as nat,
                    ),
                decreases s.params.len() - j,
            {
                let q = &s.params[j];
                let d = if pat.contains(&q.name) {
                    Report::new()
                } else {
                    messages::route_unbound(&q.name, &s.name, pattern, s.line)
                };
                props.append(d);
                let t = if same(&q.ty, "String") || same(&q.ty, "Int") {
                    Report::new()
                } else {
                    messages::route_prop_type(&q.name, &s.name, &q.ty, s.line)
                };
                props.append(t);
                j = j + 1;
            }
            out.append(props);
            out
        },
    }
}

/// R32 on the first `n` screens.
pub open spec fn route_decls_diags(list: Seq<ScreenNode>, n: int) -> Seq<DiagView>
    decreases n,
{
    if n <= 0 || n > list.len() {
        clean()
    } else {
        route_decls_diags(list, n - 1) + route_decl_diags(list[n - 1])
    }
}

fn check_route_decls(list: &Vec<ScreenNode>) -> (r: Report)
    ensures
        r@ == route_decls_diags(list@, list@.len() as int),
{
    let mut out = Report::new();
    let mut i: usize = 0;
    while i < list.len()
        invariant
            i <= list.len(),
            out@ == route_decls_diags(list@, i as int),
        decreases list.len() - i,
    {
        let d = check_route_decl(&list[i]);
        out.append(d);
        i = i + 1;
    }
    out
}

/// R5 on a function: secret-derived data is returned on the server only, and there only as a model,
/// whose secret fields are stripped on the wire.
pub open spec fn leak_diags(f: FunctionNode, rs: Map<Seq<char>, bool>, p: XeresProgram) -> Seq<
    DiagView,
> {
    if !(rs.dom().contains(f.name@) && rs[f.name@]) {
        clean()
    } else if f.env != EnvModifier::Server {
        messages::leak_env_diag(f.name@, env_text(f.env), f.line as nat)
    } else {
        match f.return_type {
            Some(t) => if model_shaped(t@, p) {
                clean()
            } else {
                messages::leak_scalar_diag(f.name@, t@, f.line as nat)
            },
            None => messages::leak_scalar_diag(f.name@, "value"@, f.line as nat),
        }
    }
}

fn check_leak(f: &FunctionNode, rs: &StrMap<bool>, p: &XeresProgram) -> (r: Report)
    ensures
        r@ == leak_diags(*f, rs@, *p),
{
    let leaks = match rs.get(&f.name) {
        Some(b) => *b,
        None => false,
    };
    if !leaks {
        return Report::new();
    }
    if f.env != EnvModifier::Server {
        return messages::leak_env(&f.name, env_label(f.env), f.line);
    }
    match &f.return_type {
        Some(t) => if is_model_shaped(t, p) {
            Report::new()
        } else {
            messages::leak_scalar(&f.name, t, f.line)
        },
        None => messages::leak_scalar(&f.name, "value", f.line),
    }
}

/// R5 on the first `n` functions.
pub open spec fn leaks_diags(list: Seq<FunctionNode>, n: int, rs: Map<Seq<char>, bool>, p: XeresProgram) -> Seq<DiagView>
    decreases n,
{
    if n <= 0 || n > list.len() {
        clean()
    } else {
        leaks_diags(list, n - 1, rs, p) + leak_diags(list[n - 1], rs, p)
    }
}

fn check_leaks(list: &Vec<FunctionNode>, rs: &StrMap<bool>, p: &XeresProgram) -> (r: Report)
    ensures
        r@ == leaks_diags(list@, list@.len() as int, rs@, *p),
{
    let mut out = Report::new();
    let mut i: usize = 0;
    while i < list.len()
        invariant
            i <= list.len(),
            out@ == leaks_diags(list@, i as int, rs@, *p),
        decreases list.len() - i,
    {
        let d = check_leak(&list[i], rs, p);
        out.append(d);
        i = i + 1;
    }
    out
}

/// Every finding on a program, rule by rule.
pub open spec fn program_diags(p: XeresProgram) -> Seq<DiagView> {
    themes_diags(p.themes@, p.themes@.len() as int)
        + styles_diags(p.styles@, p.styles@.len() as int)
        + style_tokens_diags(p.styles@, p.styles@.len() as int, p)
        + endpoints_diags(p.endpoints@, p.endpoints@.len() as int)
        + enums_diags(p.enums@, p.enums@.len() as int)
        + screen_names_diags(p.screens@, p.screens@.len() as int)
        + models_diags(p.models@, p.models@.len() as int)
        + functions_diags(p.functions@, p.functions@.len() as int)
        + model_types_diags(p.models@, p.models@.len() as int, p)
        + collections_diags(p.states@, p.states@.len() as int, p)
        + signatures_diags(p.functions@, p.functions@.len() as int, p)
        + auth_fns_diags(p.functions@, p.functions@.len() as int)
        + bodies_diags(p.functions@, p.functions@.len() as int, p)
        + apis_diags(p.apis@, p.apis@.len() as int, p)
        + screens_diags(p.screens@, p.screens@.len() as int, p)
        + auth_screens_diags(p.screens@, p.screens@.len() as int, default_route(p.screens@, 0), functions_use_spec(p, Feature::Session))
        + route_decls_diags(p.screens@, p.screens@.len() as int)
        + leaks_diags(p.functions@, p.functions@.len() as int, secret_returns(p), p)
}

/// Analyzes a program: the findings of every rule in line order, and which functions return
/// secret-derived data.
pub fn analyze(p: &XeresProgram) -> (r: Analysis)
    ensures
        diag_views(r.errors@) == by_line(program_diags(*p), program_diags(*p).len() as int),
        r.returns_secret@ == secret_returns(*p),
{
    let mut out = check_themes(&p.themes);
    out.append(check_styles(&p.styles));
    out.append(check_style_tokens(&p.styles, p));
    out.append(check_endpoints(&p.endpoints));
    out.append(check_enums(&p.enums));
    out.append(check_screen_names(&p.screens));
    out.append(check_models(&p.models));
    out.append(check_functions(&p.functions));
    out.append(check_model_types(&p.models, p));
    out.append(check_collections(&p.states, p));
    out.append(check_signatures(&p.functions, p));
    out.append(check_auth_fns(&p.functions));
    out.append(check_bodies(&p.functions, p));
    out.append(check_apis(&p.apis, p));
    out.append(check_screens(&p.screens, p));
    let root = find_default_route(&p.screens);
    out.append(check_auth_screens(&p.screens, &root, uses_session(p)));
    out.append(check_route_decls(&p.screens));
    let returns_secret = find_secret_returns(p);
    out.append(check_leaks(&p.functions, &returns_secret, p));
    let errors = sort_by_line(out);
    Analysis { errors, returns_secret }
}

/// The findings on a program are exactly those of the rules, each once, and come in line order.
pub proof fn law_findings_in_line_order(p: XeresProgram)
    ensures
        lines_ascend(by_line(program_diags(p), program_diags(p).len() as int)),
        by_line(program_diags(p), program_diags(p).len() as int).to_multiset()
            =~= program_diags(p).to_multiset(),
{
    let all = program_diags(p);
    law_by_line(all, all.len() as int);
    assert(all.take(all.len() as int) =~= all);
}

} // verus!
