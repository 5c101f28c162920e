//! Stylesheets: design tokens, named styles, and inline style attributes.
use vstd::prelude::*;
use vstd::string::*;

use crate::ast::{StyleNode, ThemeNode, ThemeToken, XeresProgram};
use crate::scan::{
    find_char, find_chars, find_from, find_one, lemma_find_char, lemma_find_from, replace_char,
    replace_each, split_words, trim_slice, trim_text, words,
};
use crate::strmap::StrMap;
use crate::text::{cat2, cat3, cat4, cat5, cat6, chars_of, join_text, same, slice_text, Parts};
use crate::unicode::{lower_text, lowercase};

verus! {

/// The CSS variable that a token expands to: a `color` token keeps its name, any other one is
/// prefixed by its category.
pub open spec fn token_var_text(category: Seq<char>, name: Seq<char>) -> Seq<char> {
    if category == "color"@ {
        name
    } else {
        category + "-"@ + name
    }
}

/// The CSS variable that a token expands to.
pub fn token_var_name(category: &str, name: &str) -> (r: String)
    ensures
        r@ == token_var_text(category@, name@),
{
    if same(category, "color") {
        name.to_owned()
    } else {
        cat3(category, "-", name)
    }
}

/// The variables of the first `n` tokens, by name, added to those of `base`.
pub open spec fn tokens_map(
    base: Map<Seq<char>, Seq<char>>,
    ts: Seq<ThemeToken>,
    n: int,
) -> Map<Seq<char>, Seq<char>>
    decreases n,
{
    if n <= 0 || n > ts.len() {
        base
    } else {
        tokens_map(base, ts, n - 1).insert(
            ts[n - 1].name@,
            token_var_text(ts[n - 1].category@, ts[n - 1].name@),
        )
    }
}

/// The variables of all tokens of the first `n` themes, by name; a later token wins.
pub open spec fn themes_map(themes: Seq<ThemeNode>, n: int) -> Map<Seq<char>, Seq<char>>
    decreases n,
{
    if n <= 0 || n > themes.len() {
        Map::empty()
    } else {
        tokens_map(
            themes_map(themes, n - 1),
            themes[n - 1].tokens@,
            themes[n - 1].tokens@.len() as int,
        )
    }
}

/// The CSS variable of each token, over all themes as one namespace.
pub fn build_token_map(themes: &Vec<ThemeNode>) -> (r: StrMap<String>)
    ensures
        r@ == themes_map(themes@, themes@.len() as int),
{
    let mut map: StrMap<String> = StrMap::new();
    let mut i: usize = 0;
    while i < themes.len()
        invariant
            i <= themes.len(),
            map@ == themes_map(themes@, i as int),
        decreases themes.len() - i,
    {
        let mut j: usize = 0;
        while j < themes[i].tokens.len()
            invariant
                i < themes.len(),
                j <= themes@[i as int].tokens@.len(),
                map@ == tokens_map(themes_map(themes@, i as int), themes@[i as int].tokens@, j as int),
            decreases themes@[i as int].tokens@.len() - j,
        {
            let t = &themes[i].tokens[j];
            map.insert(t.name.clone(), token_var_name(&t.category, &t.name));
            j = j + 1;
        }
        i = i + 1;
    }
    map
}

/// A CSS source with its white space collapsed to single spaces.
pub open spec fn tidy_text(css: Seq<char>) -> Seq<char> {
    join_text(words(css), " "@)
}

/// A CSS source with its white space collapsed to single spaces.
pub fn tidy_css(css: &str) -> (r: String)
    ensures
        r@ == tidy_text(css@),
{
    split_words(css).join(" ")
}

/// A literal style as the value of an HTML attribute: tidied, its double quotes escaped.
pub open spec fn inline_css_text(css: Seq<char>) -> Seq<char> {
    replace_char(tidy_text(css), '"', "&quot;"@)
}

/// A literal style as the value of an HTML attribute.
pub fn inline_css(css: &str) -> (r: String)
    ensures
        r@ == inline_css_text(css@),
{
    replace_each(&tidy_css(css), '"', "&quot;")
}

proof fn lemma_replaced(s: Seq<char>, c: char, by: Seq<char>)
    requires
        forall|i: int| 0 <= i < by.len() ==> #[trigger] by[i] != c,
    ensures
        forall|i: int| 0 <= i < replace_char(s, c, by).len() ==> #[trigger] replace_char(s, c, by)[i]
            != c,
    decreases s.len(),
{
    if s.len() > 0 {
        lemma_replaced(s.drop_last(), c, by);
        let a = replace_char(s.drop_last(), c, by);
        let r = replace_char(s, c, by);
        assert forall|i: int| 0 <= i < r.len() implies #[trigger] r[i] != c by {
            if i < a.len() {
                assert(r[i] == a[i]);
            } else if s.last() == c {
                assert(r[i] == by[i - a.len()]);
            }
        }
    }
}

/// A literal style cannot end the attribute that it stands in: no double quote is left of it.
pub proof fn law_inline_css_holds_no_quote(css: Seq<char>)
    ensures
        !inline_css_text(css).contains('"'),
{
    reveal_strlit("&quot;");
    lemma_replaced(tidy_text(css), '"', "&quot;"@);
}

/// A CSS source from index `i` on, with every `token(name)` that is declared rewritten to its
/// variable. A name that is not declared, and a `token(` that is never closed, stay as written.
pub open spec fn resolve_from(s: Seq<char>, tokens: Map<Seq<char>, Seq<char>>, i: int) -> Seq<char>
    decreases s.len() - i,
{
    proof {
        reveal_strlit("token(");
        lemma_find_from(s, "token("@, i);
    }
    match find_from(s, "token("@, i) {
        None => s.subrange(i, s.len() as int),
        Some(pos) => {
            proof {
                lemma_find_char(s, ')', pos + 6);
            }
            match find_char(s, ')', pos + 6) {
                None => s.subrange(i, pos) + s.subrange(pos, s.len() as int),
                Some(end) => {
                    let name = trim_text(s.subrange(pos + 6, end));
                    s.subrange(i, pos) + (if tokens.dom().contains(name) {
                        "var(--"@ + tokens[name] + ")"@
                    } else {
                        s.subrange(pos, end + 1)
                    }) + resolve_from(s, tokens, end + 1)
                },
            }
        },
    }
}

fn resolve_rest(b: &Vec<char>, tokens: &StrMap<String>, from: usize) -> (r: String)
    requires
        from <= b@.len(),
    ensures
        r@ == resolve_from(b@, tokens@, from as int),
    decreases b@.len() - from,
{
    let n: usize = b.len();
    let key = chars_of("token(");
    proof {
        reveal_strlit("token(");
    }
    match find_chars(b, &key, from) {
        None => slice_text(b, from, n),
        Some(pos) => match find_one(b, ')', pos + 6) {
            None => cat2(&slice_text(b, from, pos), &slice_text(b, pos, n)),
            Some(end) => {
                let name = trim_slice(b, pos + 6, end);
                let mid = match tokens.get(&name) {
                    Some(v) => cat3("var(--", v, ")"),
                    None => slice_text(b, pos, end + 1),
                };
                let rest = resolve_rest(b, tokens, end + 1);
                cat3(&slice_text(b, from, pos), &mid, &rest)
            },
        },
    }
}

/// A CSS source with every declared `token(name)` rewritten to its variable.
pub fn resolve_tokens(css: &str, tokens: &StrMap<String>) -> (r: String)
    ensures
        r@ == resolve_from(css@, tokens@, 0),
{
    let b = chars_of(css);
    resolve_rest(&b, tokens, 0)
}

/// The declarations of the first `n` tokens.
pub open spec fn token_lines(ts: Seq<ThemeToken>, n: int) -> Seq<Seq<char>>
    decreases n,
{
    if n <= 0 || n > ts.len() {
        Seq::empty()
    } else {
        token_lines(ts, n - 1).push(
            "  --"@ + token_var_text(ts[n - 1].category@, ts[n - 1].name@) + ": "@
                + ts[n - 1].value@ + ";"@,
        )
    }
}

/// The declarations of the tokens of the first `n` themes that are dark, or that are not.
pub open spec fn theme_lines(themes: Seq<ThemeNode>, n: int, dark: bool) -> Seq<Seq<char>>
    decreases n,
{
    if n <= 0 || n > themes.len() {
        Seq::empty()
    } else if themes[n - 1].is_dark == dark {
        theme_lines(themes, n - 1, dark) + token_lines(
            themes[n - 1].tokens@,
            themes[n - 1].tokens@.len() as int,
        )
    } else {
        theme_lines(themes, n - 1, dark)
    }
}

fn emit_token_lines(ts: &Vec<ThemeToken>) -> (r: Parts)
    ensures
        r@ == token_lines(ts@, ts@.len() as int),
{
    let mut out = Parts::new();
    let mut i: usize = 0;
    while i < ts.len()
        invariant
            i <= ts.len(),
            out@ == token_lines(ts@, i as int),
        decreases ts.len() - i,
    {
        let v = token_var_name(&ts[i].category, &ts[i].name);
        out.push(cat5("  --", &v, ": ", &ts[i].value, ";"));
        i = i + 1;
    }
    out
}

fn emit_theme_lines(themes: &Vec<ThemeNode>, dark: bool) -> (r: Parts)
    ensures
        r@ == theme_lines(themes@, themes@.len() as int, dark),
{
    let mut out = Parts::new();
    let mut i: usize = 0;
    while i < themes.len()
        invariant
            i <= themes.len(),
            out@ == theme_lines(themes@, i as int, dark),
        decreases themes.len() - i,
    {
        if themes[i].is_dark == dark {
            out.extend(emit_token_lines(&themes[i].tokens));
        }
        i = i + 1;
    }
    out
}

/// The block that declares the light variables, or nothing where there are none.
pub open spec fn root_block(vs: Seq<Seq<char>>) -> Seq<char> {
    if vs.len() == 0 {
        ""@
    } else {
        ":root {\n"@ + join_text(vs, "\n"@) + "\n}\n\n"@
    }
}

/// The lines, each indented and ended.
pub open spec fn indented(vs: Seq<Seq<char>>) -> Seq<char>
    decreases vs.len(),
{
    if vs.len() == 0 {
        Seq::empty()
    } else {
        indented(vs.drop_last()) + "  "@ + vs.last() + "\n"@
    }
}

/// The blocks that declare the dark variables, for the system's preference and for the manual
/// toggle, or nothing where there are none.
pub open spec fn dark_block(vs: Seq<Seq<char>>) -> Seq<char> {
    if vs.len() == 0 {
        ""@
    } else {
        "@media (prefers-color-scheme: dark) {\n  :root {\n"@ + indented(vs)
            + "  }\n}\n\n[data-theme=\"dark\"] {\n"@ + join_text(vs, "\n"@) + "\n}\n\n"@
    }
}

/// The classes of the first `n` named styles.
pub open spec fn style_classes(
    styles: Seq<StyleNode>,
    n: int,
    tokens: Map<Seq<char>, Seq<char>>,
) -> Seq<char>
    decreases n,
{
    if n <= 0 || n > styles.len() {
        Seq::empty()
    } else {
        style_classes(styles, n - 1, tokens) + ".x-"@ + lower_text(styles[n - 1].name@) + " { "@
            + tidy_text(resolve_from(styles[n - 1].css@, tokens, 0)) + " }\n"@
    }
}

/// The generated stylesheet. A program without themes and styles has none.
pub open spec fn stylesheet_text(p: XeresProgram) -> Seq<char> {
    if p.themes@.len() == 0 && p.styles@.len() == 0 {
        ""@
    } else {
        root_block(theme_lines(p.themes@, p.themes@.len() as int, false)) + dark_block(
            theme_lines(p.themes@, p.themes@.len() as int, true),
        ) + style_classes(
            p.styles@,
            p.styles@.len() as int,
            themes_map(p.themes@, p.themes@.len() as int),
        )
    }
}

fn emit_indented(vs: &Parts) -> (r: String)
    ensures
        r@ == indented(vs@),
{
    let n: usize = vs.len();
    let mut out: String = String::new();
    let mut i: usize = 0;
    while i < n
        invariant
            i <= n,
            n == vs@.len(),
            out@ == indented(vs@.take(i as int)),
        decreases n - i,
    {
        proof {
            assert(vs@.take(i + 1).drop_last() =~= vs@.take(i as int));
        }
        out = cat4(&out, "  ", vs.get(i), "\n");
        i = i + 1;
    }
    proof {
        assert(vs@.take(n as int) =~= vs@);
    }
    out
}

fn emit_classes(styles: &Vec<StyleNode>, tokens: &StrMap<String>) -> (r: String)
    ensures
        r@ == style_classes(styles@, styles@.len() as int, tokens@),
{
    let mut out: String = String::new();
    let mut i: usize = 0;
    while i < styles.len()
        invariant
            i <= styles.len(),
            out@ == style_classes(styles@, i as int, tokens@),
        decreases styles.len() - i,
    {
        let css = tidy_css(&resolve_tokens(&styles[i].css, tokens));
        out = cat6(&out, ".x-", &lowercase(&styles[i].name), " { ", &css, " }\n");
        i = i + 1;
    }
    out
}

/// Generates the stylesheet: token variables, their dark values, and a class per named style.
pub fn gen_stylesheet(p: &XeresProgram) -> (r: String)
    ensures
        r@ == stylesheet_text(*p),
{
    if p.themes.len() == 0 && p.styles.len() == 0 {
        return "".to_owned();
    }
    let tokens = build_token_map(&p.themes);
    let light = emit_theme_lines(&p.themes, false);
    let dark = emit_theme_lines(&p.themes, true);
    let root = if light.len() == 0 {
        "".to_owned()
    } else {
        cat3(":root {\n", &light.join("\n"), "\n}\n\n")
    };
    let dim = if dark.len() == 0 {
        "".to_owned()
    } else {
        cat5(
            "@media (prefers-color-scheme: dark) {\n  :root {\n",
            &emit_indented(&dark),
            "  }\n}\n\n[data-theme=\"dark\"] {\n",
            &dark.join("\n"),
            "\n}\n\n",
        )
    };
    cat3(&root, &dim, &emit_classes(&p.styles, &tokens))
}

} // verus!
