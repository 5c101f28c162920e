//! What the command line makes of a project: its settings, and what is said of it.
use vstd::prelude::*;
use vstd::string::*;

use crate::ast::{ScreenNode, XeresProgram};
use crate::num::{nat_text, usize_text};
use crate::scan::{find_char, find_one, lines_of, split_lines, trim, trim_text};
use crate::text::{cat10, cat3, cat4, cat9, chars_of, ends_with, has_suffix, slice_text, Parts};

verus! {

/// A text without the quotes in front of it.
pub open spec fn unquoted_front(s: Seq<char>) -> Seq<char>
    decreases s.len(),
{
    if s.len() > 0 && s[0] == '"' {
        unquoted_front(s.subrange(1, s.len() as int))
    } else {
        s
    }
}

/// A text without the quotes behind it.
pub open spec fn unquoted_back(s: Seq<char>) -> Seq<char>
    decreases s.len(),
{
    if s.len() > 0 && s.last() == '"' {
        unquoted_back(s.drop_last())
    } else {
        s
    }
}

/// A text without the quotes around it.
pub open spec fn unquoted(s: Seq<char>) -> Seq<char> {
    unquoted_back(unquoted_front(s))
}

fn unquote(s: &str) -> (r: String)
    ensures
        r@ == unquoted(s@),
{
    let b = chars_of(s);
    let n: usize = b.len();
    let mut lo: usize = 0;
    proof {
        assert(b@.subrange(0, n as int) =~= s@);
    }
    while lo < n && b[lo] == '"'
        invariant
            lo <= n,
            n == b@.len(),
            unquoted_front(s@) == unquoted_front(b@.subrange(lo as int, n as int)),
        decreases n - lo,
    {
        proof {
            let t = b@.subrange(lo as int, n as int);
            assert(t.subrange(1, t.len() as int) =~= b@.subrange(lo + 1, n as int));
        }
        lo = lo + 1;
    }
    let ghost t = b@.subrange(lo as int, n as int);
    proof {
        if t.len() > 0 {
            assert(t[0] == b@[lo as int]);
        }
        assert(unquoted_front(t) == t);
    }
    let mut hi: usize = n;
    while hi > lo && b[hi - 1] == '"'
        invariant
            lo <= hi <= n,
            n == b@.len(),
            unquoted_back(t) == unquoted_back(b@.subrange(lo as int, hi as int)),
        decreases hi - lo,
    {
        proof {
            let u = b@.subrange(lo as int, hi as int);
            assert(u.drop_last() =~= b@.subrange(lo as int, hi - 1));
            assert(u.last() == b@[hi - 1]);
        }
        hi = hi - 1;
    }
    proof {
        let u = b@.subrange(lo as int, hi as int);
        if u.len() > 0 {
            assert(u.last() == b@[hi - 1]);
        }
    }
    slice_text(&b, lo, hi)
}

/// The setting that a line of a settings file makes: none for an empty line, a comment and a line
/// without an equals sign.
pub open spec fn setting_of(line: Seq<char>) -> Option<(Seq<char>, Seq<char>)> {
    let t = trim_text(line);
    if t.len() == 0 || t[0] == '#' {
        None
    } else {
        match find_char(t, '=', 0) {
            Some(k) => Some(
                (
                    trim_text(t.subrange(0, k)),
                    unquoted(trim_text(t.subrange(k + 1, t.len() as int))),
                ),
            ),
            None => None,
        }
    }
}

/// The settings that the first `n` lines make.
pub open spec fn settings_in(lines: Seq<Seq<char>>, n: int) -> Seq<(Seq<char>, Seq<char>)>
    decreases n,
{
    if n <= 0 || n > lines.len() {
        Seq::empty()
    } else {
        match setting_of(lines[n - 1]) {
            Some(s) => settings_in(lines, n - 1).push(s),
            None => settings_in(lines, n - 1),
        }
    }
}

/// Settings, by their texts.
pub open spec fn settings_view(vs: Seq<(String, String)>, n: int) -> Seq<(Seq<char>, Seq<char>)>
    decreases n,
{
    if n <= 0 || n > vs.len() {
        Seq::empty()
    } else {
        settings_view(vs, n - 1).push((vs[n - 1].0@, vs[n - 1].1@))
    }
}

proof fn lemma_settings_prefix(a: Seq<(String, String)>, b: Seq<(String, String)>, n: int)
    requires
        0 <= n <= a.len(),
        n <= b.len(),
        forall|i: int| 0 <= i < n ==> a[i] == b[i],
    ensures
        settings_view(a, n) == settings_view(b, n),
    decreases n,
{
    if n > 0 {
        lemma_settings_prefix(a, b, n - 1);
    }
}

fn read_setting(line: &str) -> (r: Option<(String, String)>)
    ensures
        match r {
            Some(s) => setting_of(line@) == Some((s.0@, s.1@)),
            None => setting_of(line@) is None,
        },
{
    let t = trim(line);
    let b = chars_of(&t);
    if b.len() == 0 || b[0] == '#' {
        return None;
    }
    match find_one(&b, '=', 0) {
        Some(k) => {
            let name = trim(&slice_text(&b, 0, k));
            let value = unquote(&trim(&slice_text(&b, k + 1, b.len())));
            Some((name, value))
        },
        None => None,
    }
}

/// The settings of a settings file.
pub fn load_env(content: &str) -> (r: Vec<(String, String)>)
    ensures
        settings_view(r@, r@.len() as int) == settings_in(
            lines_of(content@),
            lines_of(content@).len() as int,
        ),
{
    let lines = split_lines(content);
    let mut out: Vec<(String, String)> = Vec::new();
    let mut i: usize = 0;
    while i < lines.len()
        invariant
            i <= lines@.len(),
            lines@ == lines_of(content@),
            settings_view(out@, out@.len() as int) == settings_in(lines@, i as int),
        decreases lines@.len() - i,
    {
        if let Some(s) = read_setting(lines.get(i)) {
            let ghost before = out@;
            out.push(s);
            proof {
                lemma_settings_prefix(before, out@, before.len() as int);
            }
        }
        i = i + 1;
    }
    out
}

/// How many of the first `n` screens are components.
pub open spec fn component_count(ss: Seq<ScreenNode>, n: int) -> nat
    decreases n,
{
    if n <= 0 || n > ss.len() {
        0
    } else {
        component_count(ss, n - 1) + (if ss[n - 1].is_component {
            1nat
        } else {
            0nat
        })
    }
}

proof fn lemma_component_count(ss: Seq<ScreenNode>, n: int)
    requires
        n <= ss.len(),
    ensures
        n >= 0 ==> component_count(ss, n) <= n,
    decreases n,
{
    if n > 0 {
        lemma_component_count(ss, n - 1);
    }
}

/// How many screens of a program are pages, and how many are components.
pub fn screen_component_counts(program: &XeresProgram) -> (r: (usize, usize))
    ensures
        r.1 == component_count(program.screens@, program.screens@.len() as int),
        r.0 + r.1 == program.screens@.len(),
{
    let n: usize = program.screens.len();
    let mut count: usize = 0;
    let mut i: usize = 0;
    while i < n
        invariant
            i <= n,
            n == program.screens@.len(),
            count <= i,
            count == component_count(program.screens@, i as int),
        decreases n - i,
    {
        if program.screens[i].is_component {
            count = count + 1;
        }
        i = i + 1;
    }
    (n - count, count)
}

/// The first of the arguments from the `i`th on that names a source file.
pub open spec fn source_argument(args: Seq<Seq<char>>, i: int) -> Option<Seq<char>>
    decreases args.len() - i,
{
    if i < 0 || i >= args.len() {
        None
    } else if has_suffix(args[i], ".xrs"@) || has_suffix(args[i], ".xer"@) {
        Some(args[i])
    } else {
        source_argument(args, i + 1)
    }
}

/// The source file that the arguments behind the program's name tell.
pub fn find_source(args: &Parts) -> (r: Option<String>)
    ensures
        crate::resolve::opt_text(r) == source_argument(args@, 1),
{
    let mut i: usize = 1;
    while i < args.len()
        invariant
            1 <= i,
            source_argument(args@, 1) == source_argument(args@, i as int),
        decreases args@.len() - i,
    {
        let a = args.get(i);
        if ends_with(a, ".xrs") || ends_with(a, ".xer") {
            return Some(a.clone());
        }
        i = i + 1;
    }
    None
}

/// What is said of a program's enums.
pub open spec fn enum_part(p: XeresProgram) -> Seq<char> {
    if p.enums@.len() == 0 {
        ""@
    } else {
        ", "@ + nat_text(p.enums@.len()) + " enum(s)"@
    }
}

/// How many screens of a program are pages.
pub open spec fn page_count(p: XeresProgram) -> nat {
    (p.screens@.len() - component_count(p.screens@, p.screens@.len() as int)) as nat
}

/// What is said of a program that was compiled.
pub open spec fn build_text(path: Seq<char>, p: XeresProgram) -> Seq<char> {
    "xeres: compiled "@ + path + " -> out/server/ ("@ + nat_text(p.models@.len()) + " model(s)"@
        + enum_part(p) + ", "@ + nat_text(p.functions@.len()) + " fn(s), "@ + (nat_text(
        page_count(p),
    ) + " screen(s), "@ + nat_text(component_count(p.screens@, p.screens@.len() as int))
        + " component(s))"@)
}

/// What is said of a program that is served.
pub open spec fn serve_text(path: Seq<char>, p: XeresProgram) -> Seq<char> {
    "xeres: serving "@ + path + " ("@ + nat_text(p.functions@.len()) + " fn(s), "@ + nat_text(
        page_count(p),
    ) + " screen(s), "@ + nat_text(component_count(p.screens@, p.screens@.len() as int))
        + " component(s))"@
}

/// What is said of a program that was compiled.
pub fn build_summary(path: &str, p: &XeresProgram) -> (r: String)
    ensures
        r@ == build_text(path@, *p),
{
    let (screens, components) = screen_component_counts(p);
    let enums = if p.enums.len() == 0 {
        "".to_owned()
    } else {
        cat3(", ", &usize_text(p.enums.len()), " enum(s)")
    };
    cat10(
        "xeres: compiled ",
        path,
        " -> out/server/ (",
        &usize_text(p.models.len()),
        " model(s)",
        &enums,
        ", ",
        &usize_text(p.functions.len()),
        " fn(s), ",
        &cat4(&usize_text(screens), " screen(s), ", &usize_text(components), " component(s))"),
    )
}

/// What is said of a program that is served.
pub fn serve_summary(path: &str, p: &XeresProgram) -> (r: String)
    ensures
        r@ == serve_text(path@, *p),
{
    let (screens, components) = screen_component_counts(p);
    cat9(
        "xeres: serving ",
        path,
        " (",
        &usize_text(p.functions.len()),
        " fn(s), ",
        &usize_text(screens),
        " screen(s), ",
        &usize_text(components),
        " component(s))",
    )
}

/// What is said of a program with findings.
pub open spec fn abort_text(n: nat) -> Seq<char> {
    "\nxeres: "@ + nat_text(n) + (if n == 1 {
        " error"@
    } else {
        " errors"@
    }) + " - compilation aborted."@
}

/// What is said of a program with findings.
pub fn abort_summary(n: usize) -> (r: String)
    ensures
        r@ == abort_text(n as nat),
{
    cat4(
        "\nxeres: ",
        &usize_text(n),
        if n == 1 {
            " error"
        } else {
            " errors"
        },
        " - compilation aborted.",
    )
}

} // verus!
