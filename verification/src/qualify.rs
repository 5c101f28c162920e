//! R35: only exported functions cross a module boundary. A visible `mod.fn(...)` becomes `fn(...)`.
use vstd::prelude::*;
use vstd::string::*;

use crate::ast::{Expr, Handler, MatchArm, Stmt, ViewNode};
use crate::diagnostics::{clean, found_in, DiagView, Report};
use crate::lower::{copy_pattern, copy_texts};
use crate::resolve::{copy_opt, opt_text};
use crate::text::{cat11, cat7, cat9, same, Parts};

verus! {

/// A module and the modules that it imports.
pub struct ModuleRow {
    pub name: String,
    pub imports: Parts,
}

/// A function, its module, and whether it is exported.
pub struct FunctionRow {
    pub name: String,
    pub module: String,
    pub is_pub: bool,
}

/// The modules of a program and their functions.
pub struct Directory {
    pub modules: Vec<ModuleRow>,
    pub functions: Vec<FunctionRow>,
}

/// Where the code that is looked at lives.
pub struct Caller {
    pub module: String,
    pub file: String,
    pub line: usize,
}

/// Where the code that is looked at lives, by its texts.
pub struct CallerView {
    pub module: Seq<char>,
    pub file: Seq<char>,
    pub line: nat,
}

impl View for Caller {
    type V = CallerView;

    open spec fn view(&self) -> CallerView {
        CallerView { module: self.module@, file: self.file@, line: self.line as nat }
    }
}

/// A module and the modules that it imports, by their texts.
pub struct ModuleRowView {
    pub name: Seq<char>,
    pub imports: Seq<Seq<char>>,
}

/// A function, its module, and whether it is exported, by their texts.
pub struct FunctionRowView {
    pub name: Seq<char>,
    pub module: Seq<char>,
    pub is_pub: bool,
}

/// The modules of a program and their functions, by their texts.
pub struct DirectoryView {
    pub modules: Seq<ModuleRowView>,
    pub functions: Seq<FunctionRowView>,
}

/// The modules of a list, by their texts.
pub open spec fn module_rows(rows: Seq<ModuleRow>) -> Seq<ModuleRowView> {
    Seq::new(
        rows.len(),
        |i: int| ModuleRowView { name: rows[i].name@, imports: rows[i].imports@ },
    )
}

/// The functions of a list, by their texts.
pub open spec fn function_rows(rows: Seq<FunctionRow>) -> Seq<FunctionRowView> {
    Seq::new(
        rows.len(),
        |i: int|
            FunctionRowView {
                name: rows[i].name@,
                module: rows[i].module@,
                is_pub: rows[i].is_pub,
            },
    )
}

impl View for Directory {
    type V = DirectoryView;

    open spec fn view(&self) -> DirectoryView {
        DirectoryView {
            modules: module_rows(self.modules@),
            functions: function_rows(self.functions@),
        }
    }
}

/// Whether a name is a module's.
pub open spec fn is_module(d: DirectoryView, m: Seq<char>) -> bool {
    exists|i: int| 0 <= i < d.modules.len() && (#[trigger] d.modules[i]).name == m
}

/// Whether a module imports another.
pub open spec fn imports(d: DirectoryView, a: Seq<char>, b: Seq<char>) -> bool {
    exists|i: int|
        0 <= i < d.modules.len() && (#[trigger] d.modules[i]).name == a
            && d.modules[i].imports.contains(b)
}

/// Whether a module exports a function.
pub open spec fn exports(d: DirectoryView, m: Seq<char>, f: Seq<char>) -> bool {
    exists|i: int|
        0 <= i < d.functions.len() && (#[trigger] d.functions[i]).module == m
            && d.functions[i].name == f && d.functions[i].is_pub
}

/// The module of the last of the first `n` functions with this name.
pub open spec fn owner(fs: Seq<FunctionRowView>, f: Seq<char>, n: int) -> Option<Seq<char>>
    decreases n,
{
    if n <= 0 || n > fs.len() {
        None
    } else if fs[n - 1].name == f {
        Some(fs[n - 1].module)
    } else {
        owner(fs, f, n - 1)
    }
}

fn knows_module(d: &Directory, m: &str) -> (r: bool)
    ensures
        r == is_module(d@, m@),
{
    let mut i: usize = 0;
    while i < d.modules.len()
        invariant
            i <= d.modules.len(),
            forall|j: int| 0 <= j < i ==> (#[trigger] d@.modules[j]).name != m@,
        decreases d.modules.len() - i,
    {
        if same(&d.modules[i].name, m) {
            proof {
                assert(d@.modules[i as int].name == m@);
            }
            return true;
        }
        i = i + 1;
    }
    false
}

fn does_import(d: &Directory, a: &str, b: &str) -> (r: bool)
    ensures
        r == imports(d@, a@, b@),
{
    let mut i: usize = 0;
    while i < d.modules.len()
        invariant
            i <= d.modules.len(),
            forall|j: int|
                0 <= j < i ==> !((#[trigger] d@.modules[j]).name == a@
                    && d@.modules[j].imports.contains(b@)),
        decreases d.modules.len() - i,
    {
        if same(&d.modules[i].name, a) && d.modules[i].imports.contains(b) {
            proof {
                assert(d@.modules[i as int].name == a@);
            }
            return true;
        }
        i = i + 1;
    }
    false
}

fn does_export(d: &Directory, m: &str, f: &str) -> (r: bool)
    ensures
        r == exports(d@, m@, f@),
{
    let mut i: usize = 0;
    while i < d.functions.len()
        invariant
            i <= d.functions.len(),
            forall|j: int|
                0 <= j < i ==> !((#[trigger] d@.functions[j]).module == m@ && d@.functions[j].name
                    == f@ && d@.functions[j].is_pub),
        decreases d.functions.len() - i,
    {
        let row = &d.functions[i];
        if same(&row.module, m) && same(&row.name, f) && row.is_pub {
            proof {
                assert(d@.functions[i as int].module == m@);
            }
            return true;
        }
        i = i + 1;
    }
    false
}

fn find_owner<'a>(d: &'a Directory, f: &str) -> (r: Option<&'a String>)
    ensures
        match r {
            Some(m) => owner(d@.functions, f@, d@.functions.len() as int) == Some(m@),
            None => owner(d@.functions, f@, d@.functions.len() as int) is None,
        },
{
    let mut n: usize = d.functions.len();
    while n > 0
        invariant
            n <= d.functions.len(),
            owner(d@.functions, f@, d@.functions.len() as int) == owner(
                d@.functions,
                f@,
                n as int,
            ),
        decreases n,
    {
        if same(&d.functions[n - 1].name, f) {
            return Some(&d.functions[n - 1].module);
        }
        n = n - 1;
    }
    None
}

/// The finding on a module that is referred to and not imported.
pub open spec fn not_imported_diag(recv: Seq<char>, c: CallerView) -> Seq<DiagView> {
    found_in(
        c.file,
        c.line,
        "R35 module-visibility"@,
        "module `"@ + recv + "` is referenced in `"@ + c.module
            + "` but not imported there — add `import \""@ + recv + ".xrs\"`."@,
    )
}

/// The finding on a function that its module does not export.
pub open spec fn not_exported_diag(recv: Seq<char>, f: Seq<char>, c: CallerView) -> Seq<DiagView> {
    found_in(
        c.file,
        c.line,
        "R35 module-visibility"@,
        "`"@ + recv + "."@ + f + "` is not accessible — `"@ + recv
            + "` has no exported function `"@ + f + "` (mark it `pub fn "@ + f
            + "` to export it)."@,
    )
}

/// The finding on a call of another module's function without its module's name.
pub open spec fn not_qualified_diag(f: Seq<char>, m: Seq<char>, c: CallerView) -> Seq<DiagView> {
    found_in(
        c.file,
        c.line,
        "R35 module-visibility"@,
        "function `"@ + f + "` belongs to module `"@ + m + "` — import it and call it as `"@ + m
            + "."@ + f + "(...)`."@,
    )
}

/// Whether a receiver names another module.
pub open spec fn names_module(receiver: Expr, c: CallerView, d: DirectoryView) -> bool {
    receiver is Ident && receiver->Ident_0@ != c.module && is_module(d, receiver->Ident_0@)
}

/// What a call with another module's name in front of it reports.
pub open spec fn visibility_diags(m: Seq<char>, f: Seq<char>, c: CallerView, d: DirectoryView) -> Seq<
    DiagView,
> {
    if !imports(d, c.module, m) {
        not_imported_diag(m, c)
    } else if !exports(d, m, f) {
        not_exported_diag(m, f, c)
    } else {
        clean()
    }
}

fn check_visibility(m: &str, f: &str, c: &Caller, d: &Directory) -> (r: Report)
    ensures
        r@ == visibility_diags(m@, f@, c@, d@),
{
    if !does_import(d, &c.module, m) {
        Report::at(
            c.file.clone(),
            c.line,
            "R35 module-visibility",
            cat7(
                "module `",
                m,
                "` is referenced in `",
                &c.module,
                "` but not imported there — add `import \"",
                m,
                ".xrs\"`.",
            ),
        )
    } else if !does_export(d, m, f) {
        Report::at(
            c.file.clone(),
            c.line,
            "R35 module-visibility",
            cat11(
                "`",
                m,
                ".",
                f,
                "` is not accessible — `",
                m,
                "` has no exported function `",
                f,
                "` (mark it `pub fn ",
                f,
                "` to export it).",
            ),
        )
    } else {
        Report::new()
    }
}

/// Whether `b` is an expression with its visible module-qualified calls made plain.
pub open spec fn resolves(a: Expr, b: Expr, c: CallerView, d: DirectoryView) -> bool
    decreases a,
{
    match a {
        Expr::MethodCall { receiver, method, args } => if names_module(*receiver, c, d) && imports(
            d,
            c.module,
            receiver->Ident_0@,
        ) && exports(d, receiver->Ident_0@, method@) {
            &&& b matches Expr::Call { callee, args: bs }
            &&& callee@ == method@
            &&& all_resolve(args@, bs@, c, d)
        } else {
            &&& b matches Expr::MethodCall { receiver: r, method: m, args: bs }
            &&& m@ == method@
            &&& all_resolve(args@, bs@, c, d)
            &&& resolves(*receiver, *r, c, d)
        },
        Expr::Call { callee, args } => {
            &&& b matches Expr::Call { callee: f, args: bs }
            &&& f@ == callee@
            &&& all_resolve(args@, bs@, c, d)
        },
        Expr::Field { base, field } => {
            &&& b matches Expr::Field { base: x, field: f }
            &&& f@ == field@
            &&& resolves(*base, *x, c, d)
        },
        Expr::Unary { op, expr } => {
            &&& b matches Expr::Unary { op: o, expr: x }
            &&& o == op
            &&& resolves(*expr, *x, c, d)
        },
        Expr::Declassify(inner) => {
            &&& b matches Expr::Declassify(x)
            &&& resolves(*inner, *x, c, d)
        },
        Expr::Raw(inner) => {
            &&& b matches Expr::Raw(x)
            &&& resolves(*inner, *x, c, d)
        },
        Expr::Await(inner) => {
            &&& b matches Expr::Await(x)
            &&& resolves(*inner, *x, c, d)
        },
        Expr::Binary { op, left, right } => {
            &&& b matches Expr::Binary { op: o, left: l, right: r }
            &&& o == op
            &&& resolves(*left, *l, c, d)
            &&& resolves(*right, *r, c, d)
        },
        Expr::Record { name, fields } => {
            &&& b matches Expr::Record { name: n, fields: fs }
            &&& n@ == name@
            &&& fields_resolve(fields@, fs@, c, d)
        },
        Expr::ListLit(items) => {
            &&& b matches Expr::ListLit(bs)
            &&& all_resolve(items@, bs@, c, d)
        },
        Expr::Ternary { cond, yes, otherwise } => {
            &&& b matches Expr::Ternary { cond: x, yes: y, otherwise: o }
            &&& resolves(*cond, *x, c, d)
            &&& resolves(*yes, *y, c, d)
            &&& resolves(*otherwise, *o, c, d)
        },
        Expr::Range { start, end } => {
            &&& b matches Expr::Range { start: s, end: e }
            &&& resolves(*start, *s, c, d)
            &&& resolves(*end, *e, c, d)
        },
        Expr::Closure { params, body } => {
            &&& b matches Expr::Closure { params: q, body: x }
            &&& q@ == params@
            &&& resolves(*body, *x, c, d)
        },
        Expr::Index { base, index } => {
            &&& b matches Expr::Index { base: x, index: i }
            &&& resolves(*base, *x, c, d)
            &&& resolves(*index, *i, c, d)
        },
        Expr::Int(_)
        | Expr::Float(_)
        | Expr::Str(_)
        | Expr::Bool(_)
        | Expr::Ident(_)
        | Expr::NoneLit => b == a,
    }
}

/// Whether each of `bs` is its counterpart with its visible module-qualified calls made plain.
pub open spec fn all_resolve(es: Seq<Expr>, bs: Seq<Expr>, c: CallerView, d: DirectoryView) -> bool
    decreases es,
{
    es.len() == bs.len() && forall|i: int|
        0 <= i < es.len() ==> resolves(#[trigger] es[i], bs[i], c, d)
}

/// Whether each of `bs` has the name of its counterpart, and its value resolved.
pub open spec fn fields_resolve(
    fs: Seq<(String, Expr)>,
    bs: Seq<(String, Expr)>,
    c: CallerView,
    d: DirectoryView,
) -> bool
    decreases fs,
{
    fs.len() == bs.len() && forall|i: int|
        0 <= i < fs.len() ==> (#[trigger] fs[i]).0@ == bs[i].0@ && resolves(fs[i].1, bs[i].1, c, d)
}

/// What an expression reports: its calls across module boundaries.
pub open spec fn qual_diags(a: Expr, c: CallerView, d: DirectoryView) -> Seq<DiagView>
    decreases a, 0int,
{
    match a {
        Expr::MethodCall { receiver, method, args } => qual_all(
            args@,
            args@.len() as int,
            c,
            d,
        ) + (if names_module(*receiver, c, d) {
            visibility_diags(receiver->Ident_0@, method@, c, d)
        } else {
            qual_diags(*receiver, c, d)
        }),
        Expr::Call { callee, args } => (match owner(
            d.functions,
            callee@,
            d.functions.len() as int,
        ) {
            Some(m) => if m == c.module {
                clean()
            } else {
                not_qualified_diag(callee@, m, c)
            },
            None => clean(),
        }) + qual_all(args@, args@.len() as int, c, d),
        Expr::Field { base, .. } => qual_diags(*base, c, d),
        Expr::Unary { expr, .. } => qual_diags(*expr, c, d),
        Expr::Declassify(inner) => qual_diags(*inner, c, d),
        Expr::Raw(inner) => qual_diags(*inner, c, d),
        Expr::Await(inner) => qual_diags(*inner, c, d),
        Expr::Binary { left, right, .. } => qual_diags(*left, c, d) + qual_diags(*right, c, d),
        Expr::Record { fields, .. } => qual_fields(fields@, fields@.len() as int, c, d),
        Expr::ListLit(items) => qual_all(items@, items@.len() as int, c, d),
        Expr::Ternary { cond, yes, otherwise } => qual_diags(*cond, c, d) + qual_diags(*yes, c, d)
            + qual_diags(*otherwise, c, d),
        Expr::Range { start, end } => qual_diags(*start, c, d) + qual_diags(*end, c, d),
        Expr::Closure { body, .. } => qual_diags(*body, c, d),
        Expr::Index { base, index } => qual_diags(*base, c, d) + qual_diags(*index, c, d),
        Expr::Int(_)
        | Expr::Float(_)
        | Expr::Str(_)
        | Expr::Bool(_)
        | Expr::Ident(_)
        | Expr::NoneLit => clean(),
    }
}

/// What the first `n` expressions report.
pub open spec fn qual_all(es: Seq<Expr>, n: int, c: CallerView, d: DirectoryView) -> Seq<DiagView>
    decreases es, n,
{
    if n <= 0 || n > es.len() {
        clean()
    } else {
        qual_all(es, n - 1, c, d) + qual_diags(es[n - 1], c, d)
    }
}

/// What the values of the first `n` fields report.
pub open spec fn qual_fields(fs: Seq<(String, Expr)>, n: int, c: CallerView, d: DirectoryView) -> Seq<
    DiagView,
>
    decreases fs, n,
{
    if n <= 0 || n > fs.len() {
        clean()
    } else {
        qual_fields(fs, n - 1, c, d) + qual_diags(fs[n - 1].1, c, d)
    }
}

fn rewrite_all(es: &Vec<Expr>, c: &Caller, d: &Directory) -> (r: (Vec<Expr>, Report))
    ensures
        all_resolve(es@, r.0@, c@, d@),
        r.1@ == qual_all(es@, es@.len() as int, c@, d@),
    decreases es, 0int,
{
    let mut out: Vec<Expr> = Vec::new();
    let mut errors = Report::new();
    let mut i: usize = 0;
    while i < es.len()
        invariant
            i <= es.len(),
            out@.len() == i,
            forall|j: int| 0 <= j < i ==> resolves(#[trigger] es@[j], out@[j], c@, d@),
            errors@ == qual_all(es@, i as int, c@, d@),
        decreases es.len() - i,
    {
        let x = rewrite_expr(&es[i], c, d);
        out.push(x.0);
        errors.append(x.1);
        i = i + 1;
    }
    (out, errors)
}

fn rewrite_fields(fs: &Vec<(String, Expr)>, c: &Caller, d: &Directory) -> (r: (
    Vec<(String, Expr)>,
    Report,
))
    ensures
        fields_resolve(fs@, r.0@, c@, d@),
        r.1@ == qual_fields(fs@, fs@.len() as int, c@, d@),
    decreases fs, 0int,
{
    let mut out: Vec<(String, Expr)> = Vec::new();
    let mut errors = Report::new();
    let mut i: usize = 0;
    while i < fs.len()
        invariant
            i <= fs.len(),
            out@.len() == i,
            forall|j: int|
                0 <= j < i ==> (#[trigger] fs@[j]).0@ == out@[j].0@ && resolves(
                    fs@[j].1,
                    out@[j].1,
                    c@,
                    d@,
                ),
            errors@ == qual_fields(fs@, i as int, c@, d@),
        decreases fs.len() - i,
    {
        let x = rewrite_expr(&fs[i].1, c, d);
        out.push((fs[i].0.clone(), x.0));
        errors.append(x.1);
        i = i + 1;
    }
    (out, errors)
}

/// Checks the calls of an expression across module boundaries, and makes the visible ones plain.
pub fn rewrite_expr(e: &Expr, c: &Caller, d: &Directory) -> (r: (Expr, Report))
    ensures
        resolves(*e, r.0, c@, d@),
        r.1@ == qual_diags(*e, c@, d@),
    decreases e, 0int,
{
    match e {
        Expr::MethodCall { receiver, method, args } => {
            let bs = rewrite_all(args, c, d);
            let mut errors = bs.1;
            if let Expr::Ident(recv) = &**receiver {
                if !same(recv, &c.module) && knows_module(d, recv) {
                    let v = check_visibility(recv, method, c, d);
                    let visible = does_import(d, &c.module, recv) && does_export(d, recv, method);
                    errors.append(v);
                    if visible {
                        return (Expr::Call { callee: method.clone(), args: bs.0 }, errors);
                    }
                    let same_recv = Expr::Ident(recv.clone());
                    proof {
                        assert(resolves(**receiver, same_recv, c@, d@));
                    }
                    return (
                        Expr::MethodCall {
                            receiver: Box::new(same_recv),
                            method: method.clone(),
                            args: bs.0,
                        },
                        errors,
                    );
                }
            }
            let x = rewrite_expr(receiver, c, d);
            errors.append(x.1);
            (
                Expr::MethodCall {
                    receiver: Box::new(x.0),
                    method: method.clone(),
                    args: bs.0,
                },
                errors,
            )
        },
        Expr::Call { callee, args } => {
            let mut errors = match find_owner(d, callee) {
                Some(m) => if same(m, &c.module) {
                    Report::new()
                } else {
                    Report::at(
                        c.file.clone(),
                        c.line,
                        "R35 module-visibility",
                        cat9(
                            "function `",
                            callee,
                            "` belongs to module `",
                            m,
                            "` — import it and call it as `",
                            m,
                            ".",
                            callee,
                            "(...)`.",
                        ),
                    )
                },
                None => Report::new(),
            };
            let bs = rewrite_all(args, c, d);
            errors.append(bs.1);
            (Expr::Call { callee: callee.clone(), args: bs.0 }, errors)
        },
        Expr::Field { base, field } => {
            let x = rewrite_expr(base, c, d);
            (Expr::Field { base: Box::new(x.0), field: field.clone() }, x.1)
        },
        Expr::Unary { op, expr } => {
            let x = rewrite_expr(expr, c, d);
            (Expr::Unary { op: *op, expr: Box::new(x.0) }, x.1)
        },
        Expr::Declassify(inner) => {
            let x = rewrite_expr(inner, c, d);
            (Expr::Declassify(Box::new(x.0)), x.1)
        },
        Expr::Raw(inner) => {
            let x = rewrite_expr(inner, c, d);
            (Expr::Raw(Box::new(x.0)), x.1)
        },
        Expr::Await(inner) => {
            let x = rewrite_expr(inner, c, d);
            (Expr::Await(Box::new(x.0)), x.1)
        },
        Expr::Binary { op, left, right } => {
            let l = rewrite_expr(left, c, d);
            let r = rewrite_expr(right, c, d);
            let mut errors = l.1;
            errors.append(r.1);
            (Expr::Binary { op: *op, left: Box::new(l.0), right: Box::new(r.0) }, errors)
        },
        Expr::Record { name, fields } => {
            let x = rewrite_fields(fields, c, d);
            (Expr::Record { name: name.clone(), fields: x.0 }, x.1)
        },
        Expr::ListLit(items) => {
            let x = rewrite_all(items, c, d);
            (Expr::ListLit(x.0), x.1)
        },
        Expr::Ternary { cond, yes, otherwise } => {
            let x = rewrite_expr(cond, c, d);
            let y = rewrite_expr(yes, c, d);
            let o = rewrite_expr(otherwise, c, d);
            let mut errors = x.1;
            errors.append(y.1);
            errors.append(o.1);
            (
                Expr::Ternary {
                    cond: Box::new(x.0),
                    yes: Box::new(y.0),
                    otherwise: Box::new(o.0),
                },
                errors,
            )
        },
        Expr::Range { start, end } => {
            let s = rewrite_expr(start, c, d);
            let t = rewrite_expr(end, c, d);
            let mut errors = s.1;
            errors.append(t.1);
            (Expr::Range { start: Box::new(s.0), end: Box::new(t.0) }, errors)
        },
        Expr::Closure { params, body } => {
            let x = rewrite_expr(body, c, d);
            (Expr::Closure { params: copy_texts(params), body: Box::new(x.0) }, x.1)
        },
        Expr::Index { base, index } => {
            let x = rewrite_expr(base, c, d);
            let i = rewrite_expr(index, c, d);
            let mut errors = x.1;
            errors.append(i.1);
            (Expr::Index { base: Box::new(x.0), index: Box::new(i.0) }, errors)
        },
        Expr::Int(i) => (Expr::Int(*i), Report::new()),
        Expr::Float(t) => (Expr::Float(t.clone()), Report::new()),
        Expr::Str(t) => (Expr::Str(t.clone()), Report::new()),
        Expr::Bool(b) => (Expr::Bool(*b), Report::new()),
        Expr::Ident(n) => (Expr::Ident(n.clone()), Report::new()),
        Expr::NoneLit => (Expr::NoneLit, Report::new()),
    }
}

/// Whether `b` is a statement with its visible module-qualified calls made plain.
pub open spec fn stmt_resolves(a: Stmt, b: Stmt, c: CallerView, d: DirectoryView) -> bool
    decreases a, 0int,
{
    match a {
        Stmt::Let { name, type_ann, value } => {
            &&& b matches Stmt::Let { name: n, type_ann: t, value: v }
            &&& n@ == name@
            &&& opt_text(t) == opt_text(type_ann)
            &&& resolves(value, v, c, d)
        },
        Stmt::Assign { name, value } => {
            &&& b matches Stmt::Assign { name: n, value: v }
            &&& n@ == name@
            &&& resolves(value, v, c, d)
        },
        Stmt::Return(e) => {
            &&& b matches Stmt::Return(x)
            &&& resolves(e, x, c, d)
        },
        Stmt::Expr(e) => {
            &&& b matches Stmt::Expr(x)
            &&& resolves(e, x, c, d)
        },
        Stmt::Try { body, handler } => {
            &&& b matches Stmt::Try { body: x, handler: h }
            &&& stmts_resolve(body@, x@, c, d)
            &&& stmts_resolve(handler@, h@, c, d)
        },
        Stmt::If { cond, then_body, else_body } => {
            &&& b matches Stmt::If { cond: x, then_body: t, else_body: e }
            &&& resolves(cond, x, c, d)
            &&& stmts_resolve(then_body@, t@, c, d)
            &&& stmts_resolve(else_body@, e@, c, d)
        },
        Stmt::For { var, iter, body } => {
            &&& b matches Stmt::For { var: v, iter: i, body: x }
            &&& v@ == var@
            &&& resolves(iter, i, c, d)
            &&& stmts_resolve(body@, x@, c, d)
        },
        Stmt::While { cond, body } => {
            &&& b matches Stmt::While { cond: x, body: y }
            &&& resolves(cond, x, c, d)
            &&& stmts_resolve(body@, y@, c, d)
        },
        Stmt::Match { scrutinee, arms } => {
            &&& b matches Stmt::Match { scrutinee: s, arms: bs }
            &&& resolves(scrutinee, s, c, d)
            &&& arms_resolve(arms@, bs@, c, d)
        },
        Stmt::Transaction(body) => {
            &&& b matches Stmt::Transaction(x)
            &&& stmts_resolve(body@, x@, c, d)
        },
        Stmt::Break => b is Break,
        Stmt::Continue => b is Continue,
    }
}

/// Whether each of `bs` is its counterpart with its calls resolved.
pub open spec fn stmts_resolve(ss: Seq<Stmt>, bs: Seq<Stmt>, c: CallerView, d: DirectoryView) -> bool
    decreases ss, 0int,
{
    ss.len() == bs.len() && forall|i: int|
        0 <= i < ss.len() ==> stmt_resolves(#[trigger] ss[i], bs[i], c, d)
}

/// Whether each of `bs` is its counterpart with its calls resolved.
pub open spec fn arms_resolve(
    arms: Seq<MatchArm>,
    bs: Seq<MatchArm>,
    c: CallerView,
    d: DirectoryView,
) -> bool
    decreases arms, 0int,
{
    arms.len() == bs.len() && forall|i: int|
        0 <= i < arms.len() ==> (#[trigger] arms[i]).pattern == bs[i].pattern && stmts_resolve(
            arms[i].body@,
            bs[i].body@,
            c,
            d,
        )
}

/// What a statement reports.
pub open spec fn qual_stmt(s: Stmt, c: CallerView, d: DirectoryView) -> Seq<DiagView>
    decreases s, 0int,
{
    match s {
        Stmt::Let { value, .. } => qual_diags(value, c, d),
        Stmt::Assign { value, .. } => qual_diags(value, c, d),
        Stmt::Return(value) => qual_diags(value, c, d),
        Stmt::Expr(value) => qual_diags(value, c, d),
        Stmt::Try { body, handler } => qual_stmts(body@, body@.len() as int, c, d) + qual_stmts(
            handler@,
            handler@.len() as int,
            c,
            d,
        ),
        Stmt::If { cond, then_body, else_body } => qual_diags(cond, c, d) + qual_stmts(
            then_body@,
            then_body@.len() as int,
            c,
            d,
        ) + qual_stmts(else_body@, else_body@.len() as int, c, d),
        Stmt::For { iter, body, .. } => qual_diags(iter, c, d) + qual_stmts(
            body@,
            body@.len() as int,
            c,
            d,
        ),
        Stmt::While { cond, body } => qual_diags(cond, c, d) + qual_stmts(
            body@,
            body@.len() as int,
            c,
            d,
        ),
        Stmt::Match { scrutinee, arms } => qual_diags(scrutinee, c, d) + qual_arms(
            arms@,
            arms@.len() as int,
            c,
            d,
        ),
        Stmt::Transaction(body) => qual_stmts(body@, body@.len() as int, c, d),
        Stmt::Break | Stmt::Continue => clean(),
    }
}

/// What the first `n` statements report.
pub open spec fn qual_stmts(ss: Seq<Stmt>, n: int, c: CallerView, d: DirectoryView) -> Seq<DiagView>
    decreases ss, n,
{
    if n <= 0 || n > ss.len() {
        clean()
    } else {
        qual_stmts(ss, n - 1, c, d) + qual_stmt(ss[n - 1], c, d)
    }
}

/// What the bodies of the first `n` arms report.
pub open spec fn qual_arms(arms: Seq<MatchArm>, n: int, c: CallerView, d: DirectoryView) -> Seq<DiagView>
    decreases arms, n,
{
    if n <= 0 || n > arms.len() {
        clean()
    } else {
        qual_arms(arms, n - 1, c, d) + qual_stmts(
            arms[n - 1].body@,
            arms[n - 1].body@.len() as int,
            c,
            d,
        )
    }
}

fn rewrite_arms(arms: &Vec<MatchArm>, c: &Caller, d: &Directory) -> (r: (Vec<MatchArm>, Report))
    ensures
        arms_resolve(arms@, r.0@, c@, d@),
        r.1@ == qual_arms(arms@, arms@.len() as int, c@, d@),
    decreases arms, 0int,
{
    let mut out: Vec<MatchArm> = Vec::new();
    let mut errors = Report::new();
    let mut i: usize = 0;
    while i < arms.len()
        invariant
            i <= arms.len(),
            out@.len() == i,
            forall|j: int|
                0 <= j < i ==> (#[trigger] arms@[j]).pattern == out@[j].pattern && stmts_resolve(
                    arms@[j].body@,
                    out@[j].body@,
                    c@,
                    d@,
                ),
            errors@ == qual_arms(arms@, i as int, c@, d@),
        decreases arms.len() - i,
    {
        let x = rewrite_stmts(&arms[i].body, c, d);
        out.push(MatchArm { pattern: copy_pattern(&arms[i].pattern), body: x.0 });
        errors.append(x.1);
        i = i + 1;
    }
    (out, errors)
}

fn rewrite_stmt(s: &Stmt, c: &Caller, d: &Directory) -> (r: (Stmt, Report))
    ensures
        stmt_resolves(*s, r.0, c@, d@),
        r.1@ == qual_stmt(*s, c@, d@),
    decreases s, 0int,
{
    match s {
        Stmt::Let { name, type_ann, value } => {
            let x = rewrite_expr(value, c, d);
            (Stmt::Let { name: name.clone(), type_ann: copy_opt(type_ann), value: x.0 }, x.1)
        },
        Stmt::Assign { name, value } => {
            let x = rewrite_expr(value, c, d);
            (Stmt::Assign { name: name.clone(), value: x.0 }, x.1)
        },
        Stmt::Return(e) => {
            let x = rewrite_expr(e, c, d);
            (Stmt::Return(x.0), x.1)
        },
        Stmt::Expr(e) => {
            let x = rewrite_expr(e, c, d);
            (Stmt::Expr(x.0), x.1)
        },
        Stmt::Try { body, handler } => {
            let b = rewrite_stmts(body, c, d);
            let h = rewrite_stmts(handler, c, d);
            let mut errors = b.1;
            errors.append(h.1);
            (Stmt::Try { body: b.0, handler: h.0 }, errors)
        },
        Stmt::If { cond, then_body, else_body } => {
            let x = rewrite_expr(cond, c, d);
            let t = rewrite_stmts(then_body, c, d);
            let e = rewrite_stmts(else_body, c, d);
            let mut errors = x.1;
            errors.append(t.1);
            errors.append(e.1);
            (Stmt::If { cond: x.0, then_body: t.0, else_body: e.0 }, errors)
        },
        Stmt::For { var, iter, body } => {
            let x = rewrite_expr(iter, c, d);
            let b = rewrite_stmts(body, c, d);
            let mut errors = x.1;
            errors.append(b.1);
            (Stmt::For { var: var.clone(), iter: x.0, body: b.0 }, errors)
        },
        Stmt::While { cond, body } => {
            let x = rewrite_expr(cond, c, d);
            let b = rewrite_stmts(body, c, d);
            let mut errors = x.1;
            errors.append(b.1);
            (Stmt::While { cond: x.0, body: b.0 }, errors)
        },
        Stmt::Match { scrutinee, arms } => {
            let x = rewrite_expr(scrutinee, c, d);
            let b = rewrite_arms(arms, c, d);
            let mut errors = x.1;
            errors.append(b.1);
            (Stmt::Match { scrutinee: x.0, arms: b.0 }, errors)
        },
        Stmt::Transaction(body) => {
            let b = rewrite_stmts(body, c, d);
            (Stmt::Transaction(b.0), b.1)
        },
        Stmt::Break => (Stmt::Break, Report::new()),
        Stmt::Continue => (Stmt::Continue, Report::new()),
    }
}

/// Checks the calls of a body across module boundaries, and makes the visible ones plain.
pub fn rewrite_stmts(ss: &Vec<Stmt>, c: &Caller, d: &Directory) -> (r: (Vec<Stmt>, Report))
    ensures
        stmts_resolve(ss@, r.0@, c@, d@),
        r.1@ == qual_stmts(ss@, ss@.len() as int, c@, d@),
    decreases ss, 0int,
{
    let mut out: Vec<Stmt> = Vec::new();
    let mut errors = Report::new();
    let mut i: usize = 0;
    while i < ss.len()
        invariant
            i <= ss.len(),
            out@.len() == i,
            forall|j: int| 0 <= j < i ==> stmt_resolves(#[trigger] ss@[j], out@[j], c@, d@),
            errors@ == qual_stmts(ss@, i as int, c@, d@),
        decreases ss.len() - i,
    {
        let x = rewrite_stmt(&ss[i], c, d);
        out.push(x.0);
        errors.append(x.1);
        i = i + 1;
    }
    (out, errors)
}

/// Whether `b` is an expression slot with its calls resolved.
pub open spec fn slot_resolves(a: Option<Expr>, b: Option<Expr>, c: CallerView, d: DirectoryView) -> bool {
    match a {
        Some(x) => b is Some && resolves(x, b->0, c, d),
        None => b is None,
    }
}

/// What an expression slot reports.
pub open spec fn qual_slot(a: Option<Expr>, c: CallerView, d: DirectoryView) -> Seq<DiagView> {
    match a {
        Some(x) => qual_diags(x, c, d),
        None => clean(),
    }
}

/// Whether `b` is an event slot with its calls resolved.
pub open spec fn event_resolves(
    a: Option<Handler>,
    b: Option<Handler>,
    c: CallerView,
    d: DirectoryView,
) -> bool {
    match a {
        Some(Handler::Call(e)) => {
            &&& b matches Some(Handler::Call(x))
            &&& resolves(e, x, c, d)
        },
        Some(Handler::Block(ss)) => {
            &&& b matches Some(Handler::Block(bs))
            &&& stmts_resolve(ss@, bs@, c, d)
        },
        None => b is None,
    }
}

/// What an event slot reports.
pub open spec fn qual_event(a: Option<Handler>, c: CallerView, d: DirectoryView) -> Seq<DiagView> {
    match a {
        Some(Handler::Call(e)) => qual_diags(e, c, d),
        Some(Handler::Block(ss)) => qual_stmts(ss@, ss@.len() as int, c, d),
        None => clean(),
    }
}

fn rewrite_slot(a: &Option<Expr>, c: &Caller, d: &Directory) -> (r: (Option<Expr>, Report))
    ensures
        slot_resolves(*a, r.0, c@, d@),
        r.1@ == qual_slot(*a, c@, d@),
{
    match a {
        Some(x) => {
            let y = rewrite_expr(x, c, d);
            (Some(y.0), y.1)
        },
        None => (None, Report::new()),
    }
}

fn rewrite_event(a: &Option<Handler>, c: &Caller, d: &Directory) -> (r: (Option<Handler>, Report))
    ensures
        event_resolves(*a, r.0, c@, d@),
        r.1@ == qual_event(*a, c@, d@),
{
    match a {
        Some(Handler::Call(e)) => {
            let y = rewrite_expr(e, c, d);
            (Some(Handler::Call(y.0)), y.1)
        },
        Some(Handler::Block(ss)) => {
            let y = rewrite_stmts(ss, c, d);
            (Some(Handler::Block(y.0)), y.1)
        },
        None => (None, Report::new()),
    }
}

/// Whether `b` is a view node with its calls resolved.
pub open spec fn view_resolves(a: ViewNode, b: ViewNode, c: CallerView, d: DirectoryView) -> bool
    decreases a, 0int,
{
    match a {
        ViewNode::Element { tag, arg, style, bind, event, children } => {
            &&& b matches ViewNode::Element {
                tag: t,
                arg: x,
                style: st,
                bind: bi,
                event: ev,
                children: cs,
            }
            &&& t@ == tag@
            &&& opt_text(bi) == opt_text(bind)
            &&& slot_resolves(arg, x, c, d)
            &&& slot_resolves(style, st, c, d)
            &&& event_resolves(event, ev, c, d)
            &&& views_resolve(children@, cs@, c, d)
        },
        ViewNode::For { var, iter, body } => {
            &&& b matches ViewNode::For { var: v, iter: i, body: x }
            &&& v@ == var@
            &&& resolves(iter, i, c, d)
            &&& views_resolve(body@, x@, c, d)
        },
        ViewNode::If { cond, then_body, else_body } => {
            &&& b matches ViewNode::If { cond: x, then_body: t, else_body: e }
            &&& resolves(cond, x, c, d)
            &&& views_resolve(then_body@, t@, c, d)
            &&& views_resolve(else_body@, e@, c, d)
        },
        ViewNode::Component { name, args, line } => {
            &&& b matches ViewNode::Component { name: n, args: bs, line: l }
            &&& n@ == name@
            &&& l == line
            &&& fields_resolve(args@, bs@, c, d)
        },
    }
}

/// Whether each of `bs` is its counterpart with its calls resolved.
pub open spec fn views_resolve(
    vs: Seq<ViewNode>,
    bs: Seq<ViewNode>,
    c: CallerView,
    d: DirectoryView,
) -> bool
    decreases vs, 0int,
{
    vs.len() == bs.len() && forall|i: int|
        0 <= i < vs.len() ==> view_resolves(#[trigger] vs[i], bs[i], c, d)
}

/// What a view node reports.
pub open spec fn qual_view(v: ViewNode, c: CallerView, d: DirectoryView) -> Seq<DiagView>
    decreases v, 0int,
{
    match v {
        ViewNode::Element { arg, style, event, children, .. } => qual_slot(arg, c, d) + qual_slot(
            style,
            c,
            d,
        ) + qual_event(event, c, d) + qual_views(children@, children@.len() as int, c, d),
        ViewNode::For { iter, body, .. } => qual_diags(iter, c, d) + qual_views(
            body@,
            body@.len() as int,
            c,
            d,
        ),
        ViewNode::If { cond, then_body, else_body } => qual_diags(cond, c, d) + qual_views(
            then_body@,
            then_body@.len() as int,
            c,
            d,
        ) + qual_views(else_body@, else_body@.len() as int, c, d),
        ViewNode::Component { args, .. } => qual_fields(args@, args@.len() as int, c, d),
    }
}

/// What the first `n` view nodes report.
pub open spec fn qual_views(vs: Seq<ViewNode>, n: int, c: CallerView, d: DirectoryView) -> Seq<DiagView>
    decreases vs, n,
{
    if n <= 0 || n > vs.len() {
        clean()
    } else {
        qual_views(vs, n - 1, c, d) + qual_view(vs[n - 1], c, d)
    }
}

/// Checks the calls of view nodes across module boundaries, and makes the visible ones plain.
pub fn rewrite_views(vs: &Vec<ViewNode>, c: &Caller, d: &Directory) -> (r: (Vec<ViewNode>, Report))
    ensures
        views_resolve(vs@, r.0@, c@, d@),
        r.1@ == qual_views(vs@, vs@.len() as int, c@, d@),
    decreases vs, 0int,
{
    let mut out: Vec<ViewNode> = Vec::new();
    let mut errors = Report::new();
    let mut i: usize = 0;
    while i < vs.len()
        invariant
            i <= vs.len(),
            out@.len() == i,
            forall|j: int| 0 <= j < i ==> view_resolves(#[trigger] vs@[j], out@[j], c@, d@),
            errors@ == qual_views(vs@, i as int, c@, d@),
        decreases vs.len() - i,
    {
        let x = rewrite_view(&vs[i], c, d);
        out.push(x.0);
        errors.append(x.1);
        i = i + 1;
    }
    (out, errors)
}

/// Checks the calls of a view node across module boundaries, and makes the visible ones plain.
pub fn rewrite_view(v: &ViewNode, c: &Caller, d: &Directory) -> (r: (ViewNode, Report))
    ensures
        view_resolves(*v, r.0, c@, d@),
        r.1@ == qual_view(*v, c@, d@),
    decreases v, 0int,
{
    match v {
        ViewNode::Element { tag, arg, style, bind, event, children } => {
            let a = rewrite_slot(arg, c, d);
            let st = rewrite_slot(style, c, d);
            let ev = rewrite_event(event, c, d);
            let cs = rewrite_views(children, c, d);
            let mut errors = a.1;
            errors.append(st.1);
            errors.append(ev.1);
            errors.append(cs.1);
            (
                ViewNode::Element {
                    tag: tag.clone(),
                    arg: a.0,
                    style: st.0,
                    bind: copy_opt(bind),
                    event: ev.0,
                    children: cs.0,
                },
                errors,
            )
        },
        ViewNode::For { var, iter, body } => {
            let x = rewrite_expr(iter, c, d);
            let b = rewrite_views(body, c, d);
            let mut errors = x.1;
            errors.append(b.1);
            (ViewNode::For { var: var.clone(), iter: x.0, body: b.0 }, errors)
        },
        ViewNode::If { cond, then_body, else_body } => {
            let x = rewrite_expr(cond, c, d);
            let t = rewrite_views(then_body, c, d);
            let e = rewrite_views(else_body, c, d);
            let mut errors = x.1;
            errors.append(t.1);
            errors.append(e.1);
            (ViewNode::If { cond: x.0, then_body: t.0, else_body: e.0 }, errors)
        },
        ViewNode::Component { name, args, line } => {
            let x = rewrite_fields(args, c, d);
            (ViewNode::Component { name: name.clone(), args: x.0, line: *line }, x.1)
        },
    }
}

/// A private function of another module cannot be reached: every call of it through its module's
/// name is reported.
pub proof fn law_private_function_is_reported(
    receiver: Expr,
    method: String,
    args: Vec<Expr>,
    c: CallerView,
    d: DirectoryView,
)
    requires
        names_module(receiver, c, d),
        !exports(d, receiver->Ident_0@, method@),
    ensures
        qual_diags(
            Expr::MethodCall { receiver: Box::new(receiver), method, args },
            c,
            d,
        ).len() > 0,
{
}

} // verus!
