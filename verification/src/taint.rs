//! Secret flow: which expressions hold secret-derived data, and which functions return it.
use vstd::prelude::*;
use vstd::string::*;

use crate::ast::{Expr, FunctionNode, MatchArm, Param, Stmt, XeresProgram};
use crate::resolve::{
    bind_copy, copy_locals, copy_opt, elem_of, field_prop, get_field_prop, list_elem, opt_text,
    resolve_type, type_of, typed, Local, LocalView, Locals,
};
use crate::strmap::StrMap;

verus! {

/// Whether an expression holds secret-derived data. `declassify` and `await` launder it: the one is
/// the audited release, the other has crossed the wire, where secrets are stripped.
pub open spec fn tainted(
    e: Expr,
    ls: Map<Seq<char>, LocalView>,
    p: XeresProgram,
    rs: Map<Seq<char>, bool>,
) -> bool
    decreases e,
{
    match e {
        Expr::Ident(v) => ls.dom().contains(v@) && ls[v@].tainted,
        Expr::Field { base, field } => tainted(*base, ls, p, rs) || (match type_of(*base, ls, p) {
            Some(t) => match field_prop(t, field@, p) {
                Some(prop) => prop.is_secret,
                None => false,
            },
            None => false,
        }),
        Expr::Call { callee, .. } => rs.dom().contains(callee@) && rs[callee@],
        Expr::Unary { expr, .. } => tainted(*expr, ls, p, rs),
        Expr::Binary { left, right, .. } => tainted(*left, ls, p, rs) || tainted(*right, ls, p, rs),
        Expr::Raw(inner) => tainted(*inner, ls, p, rs),
        Expr::ListLit(items) => exists|i: int|
            0 <= i < items@.len() && tainted(#[trigger] items@[i], ls, p, rs),
        Expr::Record { fields, .. } => exists|i: int|
            0 <= i < fields@.len() && tainted((#[trigger] fields@[i]).1, ls, p, rs),
        Expr::Ternary { cond, yes, otherwise } => tainted(*cond, ls, p, rs) || tainted(
            *yes,
            ls,
            p,
            rs,
        ) || tainted(*otherwise, ls, p, rs),
        Expr::Range { start, end } => tainted(*start, ls, p, rs) || tainted(*end, ls, p, rs),
        Expr::Index { base, index } => tainted(*base, ls, p, rs) || tainted(*index, ls, p, rs),
        Expr::Closure { body, .. } => tainted(*body, ls, p, rs),
        Expr::Int(_) | Expr::Float(_) | Expr::Str(_) | Expr::Bool(_) | Expr::NoneLit => false,
        Expr::Declassify(_) | Expr::Await(_) | Expr::MethodCall { .. } => false,
    }
}

fn any_tainted(items: &Vec<Expr>, ls: &Locals, p: &XeresProgram, rs: &StrMap<bool>) -> (r: bool)
    ensures
        r == (exists|i: int|
            0 <= i < items@.len() && tainted(#[trigger] items@[i], ls@, *p, rs@)),
    decreases items,
{
    let mut i: usize = 0;
    while i < items.len()
        invariant
            i <= items.len(),
            forall|j: int| 0 <= j < i ==> !tainted(#[trigger] items@[j], ls@, *p, rs@),
        decreases items.len() - i,
    {
        if is_tainted(&items[i], ls, p, rs) {
            return true;
        }
        i = i + 1;
    }
    false
}

fn any_field_tainted(
    fields: &Vec<(String, Expr)>,
    ls: &Locals,
    p: &XeresProgram,
    rs: &StrMap<bool>,
) -> (r: bool)
    ensures
        r == (exists|i: int|
            0 <= i < fields@.len() && tainted((#[trigger] fields@[i]).1, ls@, *p, rs@)),
    decreases fields,
{
    let mut i: usize = 0;
    while i < fields.len()
        invariant
            i <= fields.len(),
            forall|j: int| 0 <= j < i ==> !tainted((#[trigger] fields@[j]).1, ls@, *p, rs@),
        decreases fields.len() - i,
    {
        if is_tainted(&fields[i].1, ls, p, rs) {
            return true;
        }
        i = i + 1;
    }
    false
}

/// Whether an expression holds secret-derived data.
pub fn is_tainted(e: &Expr, ls: &Locals, p: &XeresProgram, rs: &StrMap<bool>) -> (r: bool)
    ensures
        r == tainted(*e, ls@, *p, rs@),
    decreases e,
{
    match e {
        Expr::Ident(v) => match ls.get(v) {
            Some(l) => l.tainted,
            None => false,
        },
        Expr::Field { base, field } => {
            if is_tainted(base, ls, p, rs) {
                return true;
            }
            match resolve_type(base, ls, p) {
                Some(t) => match get_field_prop(&t, field, p) {
                    Some(prop) => prop.is_secret,
                    None => false,
                },
                None => false,
            }
        },
        Expr::Call { callee, .. } => match rs.get(callee) {
            Some(b) => *b,
            None => false,
        },
        Expr::Unary { expr, .. } => is_tainted(expr, ls, p, rs),
        Expr::Binary { left, right, .. } => is_tainted(left, ls, p, rs) || is_tainted(
            right,
            ls,
            p,
            rs,
        ),
        Expr::Raw(inner) => is_tainted(inner, ls, p, rs),
        Expr::ListLit(items) => any_tainted(items, ls, p, rs),
        Expr::Record { fields, .. } => any_field_tainted(fields, ls, p, rs),
        Expr::Ternary { cond, yes, otherwise } => is_tainted(cond, ls, p, rs) || is_tainted(
            yes,
            ls,
            p,
            rs,
        ) || is_tainted(otherwise, ls, p, rs),
        Expr::Range { start, end } => is_tainted(start, ls, p, rs) || is_tainted(end, ls, p, rs),
        Expr::Index { base, index } => is_tainted(base, ls, p, rs) || is_tainted(index, ls, p, rs),
        Expr::Closure { body, .. } => is_tainted(body, ls, p, rs),
        Expr::Int(_) | Expr::Float(_) | Expr::Str(_) | Expr::Bool(_) | Expr::NoneLit => false,
        Expr::Declassify(_) | Expr::Await(_) | Expr::MethodCall { .. } => false,
    }
}

/// The type that a `let` binds its name with: the annotation, or the initializer's type.
pub open spec fn let_type(
    ann: Option<String>,
    value: Expr,
    ls: Map<Seq<char>, LocalView>,
    p: XeresProgram,
) -> Option<Seq<char>> {
    if ann is Some {
        opt_text(ann)
    } else {
        type_of(value, ls, p)
    }
}

/// The type that a `let` binds its name with.
pub fn let_type_of(ann: &Option<String>, value: &Expr, ls: &Locals, p: &XeresProgram) -> (r: Option<
    String,
>)
    ensures
        opt_text(r) == let_type(*ann, *value, ls@, *p),
{
    if ann.is_some() {
        copy_opt(ann)
    } else {
        resolve_type(value, ls, p)
    }
}

/// The names in scope behind the first `n` statements, with what each `let` binds.
pub open spec fn flow_scope(
    ss: Seq<Stmt>,
    n: int,
    ls: Map<Seq<char>, LocalView>,
    p: XeresProgram,
    rs: Map<Seq<char>, bool>,
) -> Map<Seq<char>, LocalView>
    decreases n,
{
    if n <= 0 || n > ss.len() {
        ls
    } else {
        let before = flow_scope(ss, n - 1, ls, p, rs);
        match ss[n - 1] {
            Stmt::Let { name, type_ann, value } => before.insert(
                name@,
                LocalView {
                    ty: let_type(type_ann, value, before, p),
                    tainted: tainted(value, before, p, rs),
                },
            ),
            _ => before,
        }
    }
}

/// Whether a statement returns secret-derived data.
pub open spec fn stmt_returns_secret(
    s: Stmt,
    ls: Map<Seq<char>, LocalView>,
    p: XeresProgram,
    rs: Map<Seq<char>, bool>,
) -> bool
    decreases s,
{
    match s {
        Stmt::Return(e) => tainted(e, ls, p, rs),
        Stmt::Try { body, handler } => returns_secret_in(body@, ls, p, rs) || returns_secret_in(
            handler@,
            ls,
            p,
            rs,
        ),
        Stmt::If { then_body, else_body, .. } => returns_secret_in(then_body@, ls, p, rs)
            || returns_secret_in(else_body@, ls, p, rs),
        Stmt::For { var, iter, body } => returns_secret_in(
            body@,
            ls.insert(var@, typed(elem_of(type_of(iter, ls, p)))),
            p,
            rs,
        ),
        Stmt::While { body, .. } => returns_secret_in(body@, ls, p, rs),
        Stmt::Match { arms, .. } => exists|i: int|
            0 <= i < arms@.len() && returns_secret_in((#[trigger] arms@[i]).body@, ls, p, rs),
        Stmt::Transaction(body) => returns_secret_in(body@, ls, p, rs),
        Stmt::Let { .. } | Stmt::Assign { .. } | Stmt::Expr(_) | Stmt::Break | Stmt::Continue => {
            false
        },
    }
}

/// Whether one of the statements returns secret-derived data.
pub open spec fn returns_secret_in(
    ss: Seq<Stmt>,
    ls: Map<Seq<char>, LocalView>,
    p: XeresProgram,
    rs: Map<Seq<char>, bool>,
) -> bool
    decreases ss,
{
    exists|i: int|
        0 <= i < ss.len() && stmt_returns_secret(
            #[trigger] ss[i],
            flow_scope(ss, i, ls, p, rs),
            p,
            rs,
        )
}

fn any_arm_leaks(arms: &Vec<MatchArm>, ls: &Locals, p: &XeresProgram, rs: &StrMap<bool>) -> (r:
    bool)
    ensures
        r == (exists|i: int|
            0 <= i < arms@.len() && returns_secret_in((#[trigger] arms@[i]).body@, ls@, *p, rs@)),
    decreases arms,
{
    let mut i: usize = 0;
    while i < arms.len()
        invariant
            i <= arms.len(),
            forall|j: int|
                0 <= j < i ==> !returns_secret_in((#[trigger] arms@[j]).body@, ls@, *p, rs@),
        decreases arms.len() - i,
    {
        if taint_scan(&arms[i].body, ls, p, rs) {
            return true;
        }
        i = i + 1;
    }
    false
}

fn stmt_leaks(s: &Stmt, ls: &Locals, p: &XeresProgram, rs: &StrMap<bool>) -> (r: bool)
    ensures
        r == stmt_returns_secret(*s, ls@, *p, rs@),
    decreases s,
{
    match s {
        Stmt::Return(e) => is_tainted(e, ls, p, rs),
        Stmt::Try { body, handler } => taint_scan(body, ls, p, rs) || taint_scan(
            handler,
            ls,
            p,
            rs,
        ),
        Stmt::If { then_body, else_body, .. } => taint_scan(then_body, ls, p, rs) || taint_scan(
            else_body,
            ls,
            p,
            rs,
        ),
        Stmt::For { var, iter, body } => {
            let elem = list_elem(&resolve_type(iter, ls, p));
            let inner = bind_copy(ls, var, elem);
            taint_scan(body, &inner, p, rs)
        },
        Stmt::While { body, .. } => taint_scan(body, ls, p, rs),
        Stmt::Match { arms, .. } => any_arm_leaks(arms, ls, p, rs),
        Stmt::Transaction(body) => taint_scan(body, ls, p, rs),
        Stmt::Let { .. } | Stmt::Assign { .. } | Stmt::Expr(_) | Stmt::Break | Stmt::Continue => {
            false
        },
    }
}

/// Whether one of the statements returns secret-derived data, with these names in scope.
pub fn taint_scan(ss: &Vec<Stmt>, ls: &Locals, p: &XeresProgram, rs: &StrMap<bool>) -> (r: bool)
    ensures
        r == returns_secret_in(ss@, ls@, *p, rs@),
    decreases ss,
{
    let mut scope = copy_locals(ls);
    let mut i: usize = 0;
    while i < ss.len()
        invariant
            i <= ss.len(),
            scope@ == flow_scope(ss@, i as int, ls@, *p, rs@),
            forall|j: int|
                0 <= j < i ==> !stmt_returns_secret(
                    #[trigger] ss@[j],
                    flow_scope(ss@, j, ls@, *p, rs@),
                    *p,
                    rs@,
                ),
        decreases ss.len() - i,
    {
        if stmt_leaks(&ss[i], &scope, p, rs) {
            return true;
        }
        if let Stmt::Let { name, type_ann, value } = &ss[i] {
            let ty = let_type_of(type_ann, value, &scope, p);
            let t = is_tainted(value, &scope, p, rs);
            scope.insert(name.clone(), Local { ty, tainted: t });
        }
        i = i + 1;
    }
    false
}

/// The names in scope at the start of a body: the first `n` parameters.
pub open spec fn param_scope(ps: Seq<Param>, n: int) -> Map<Seq<char>, LocalView>
    decreases n,
{
    if n <= 0 || n > ps.len() {
        Map::empty()
    } else {
        param_scope(ps, n - 1).insert(ps[n - 1].name@, typed(Some(ps[n - 1].ty@)))
    }
}

/// The names in scope at the start of a body.
pub fn param_locals(ps: &Vec<Param>) -> (r: Locals)
    ensures
        r@ == param_scope(ps@, ps@.len() as int),
{
    let mut out: Locals = StrMap::new();
    let mut i: usize = 0;
    while i < ps.len()
        invariant
            i <= ps.len(),
            out@ == param_scope(ps@, i as int),
        decreases ps.len() - i,
    {
        out.insert(ps[i].name.clone(), Local { ty: Some(ps[i].ty.clone()), tainted: false });
        i = i + 1;
    }
    out
}

/// Whether a function returns secret-derived data, given which functions do.
pub open spec fn leaks(f: FunctionNode, p: XeresProgram, rs: Map<Seq<char>, bool>) -> bool {
    returns_secret_in(f.body@, param_scope(f.params@, f.params@.len() as int), p, rs)
}

/// Whether a function returns secret-derived data, given which functions do.
pub fn function_returns_secret(f: &FunctionNode, p: &XeresProgram, rs: &StrMap<bool>) -> (r: bool)
    ensures
        r == leaks(*f, *p, rs@),
{
    let ls = param_locals(&f.params);
    taint_scan(&f.body, &ls, p, rs)
}

/// No function is known to return secrets yet: the first `n` functions, each `false`.
pub open spec fn none_leak(fs: Seq<FunctionNode>, n: int) -> Map<Seq<char>, bool>
    decreases n,
{
    if n <= 0 || n > fs.len() {
        Map::empty()
    } else {
        none_leak(fs, n - 1).insert(fs[n - 1].name@, false)
    }
}

/// One pass over the first `n` functions, in order: each one that returns secret-derived data,
/// given what is known so far, is marked.
pub open spec fn leak_pass(p: XeresProgram, n: int, rs: Map<Seq<char>, bool>) -> Map<
    Seq<char>,
    bool,
>
    decreases n,
{
    if n <= 0 || n > p.functions@.len() {
        rs
    } else {
        let before = leak_pass(p, n - 1, rs);
        let f = p.functions@[n - 1];
        if leaks(f, p, before) && !before[f.name@] {
            before.insert(f.name@, true)
        } else {
            before
        }
    }
}

/// What is known after `k` passes.
pub open spec fn leaks_after(p: XeresProgram, k: nat) -> Map<Seq<char>, bool>
    decreases k,
{
    if k == 0 {
        none_leak(p.functions@, p.functions@.len() as int)
    } else {
        leak_pass(p, p.functions@.len() as int, leaks_after(p, (k - 1) as nat))
    }
}

/// Which functions return secret-derived data, directly or through calls: what as many passes as
/// there are functions find out.
pub open spec fn secret_returns(p: XeresProgram) -> Map<Seq<char>, bool> {
    leaks_after(p, p.functions@.len())
}

proof fn lemma_stable(p: XeresProgram, k: nat, m: nat)
    requires
        leaks_after(p, k + 1) == leaks_after(p, k),
        m >= k,
    ensures
        leaks_after(p, m) == leaks_after(p, k),
    decreases m,
{
    if m > k {
        lemma_stable(p, k, (m - 1) as nat);
        assert(leaks_after(p, m) == leak_pass(
            p,
            p.functions@.len() as int,
            leaks_after(p, (m - 1) as nat),
        ));
        assert(leaks_after(p, k + 1) == leak_pass(
            p,
            p.functions@.len() as int,
            leaks_after(p, k),
        ));
    }
}

/// The names that are marked.
pub open spec fn marked(rs: Map<Seq<char>, bool>) -> Set<Seq<char>> {
    rs.dom().filter(|n: Seq<char>| rs[n])
}

proof fn lemma_none_leak(fs: Seq<FunctionNode>, n: int)
    requires
        0 <= n <= fs.len(),
    ensures
        none_leak(fs, n).dom().finite(),
        none_leak(fs, n).dom().len() <= n,
        forall|k: Seq<char>| #[trigger] none_leak(fs, n).dom().contains(k) ==> !none_leak(fs, n)[k],
        forall|i: int| 0 <= i < n ==> none_leak(fs, n).dom().contains((#[trigger] fs[i]).name@),
    decreases n,
{
    if n > 0 {
        lemma_none_leak(fs, n - 1);
    }
}

proof fn lemma_pass(p: XeresProgram, n: int, rs: Map<Seq<char>, bool>)
    requires
        0 <= n <= p.functions@.len(),
        forall|i: int| 0 <= i < p.functions@.len() ==> rs.dom().contains(
            (#[trigger] p.functions@[i]).name@,
        ),
    ensures
        leak_pass(p, n, rs).dom() =~= rs.dom(),
        forall|k: Seq<char>| #[trigger] rs.dom().contains(k) && rs[k] ==> leak_pass(p, n, rs)[k],
        leak_pass(p, n, rs) != rs ==> exists|k: Seq<char>|
            #[trigger] rs.dom().contains(k) && !rs[k] && leak_pass(p, n, rs)[k],
    decreases n,
{
    if n > 0 {
        lemma_pass(p, n - 1, rs);
        let before = leak_pass(p, n - 1, rs);
        let f = p.functions@[n - 1];
        if leaks(f, p, before) && !before[f.name@] {
            assert(rs.dom().contains(f.name@));
            assert(!rs[f.name@]);
            assert(leak_pass(p, n, rs)[f.name@]);
        } else if before != rs {
            let k = choose|k: Seq<char>| #[trigger] rs.dom().contains(k) && !rs[k] && before[k];
            assert(leak_pass(p, n, rs)[k]);
        }
    }
}

proof fn lemma_growth(p: XeresProgram, k: nat)
    ensures
        leaks_after(p, k).dom() == none_leak(p.functions@, p.functions@.len() as int).dom(),
        marked(leaks_after(p, k)).finite(),
        marked(leaks_after(p, k)).len() <= p.functions@.len(),
        marked(leaks_after(p, k)).len() >= k || leaks_after(p, k + 1) == leaks_after(p, k),
    decreases k,
{
    let n = p.functions@.len() as int;
    let start = none_leak(p.functions@, n);
    lemma_none_leak(p.functions@, n);
    let here = leaks_after(p, k);
    if k > 0 {
        let prev = leaks_after(p, (k - 1) as nat);
        lemma_growth(p, (k - 1) as nat);
        assert forall|i: int| 0 <= i < p.functions@.len() implies prev.dom().contains(
            (#[trigger] p.functions@[i]).name@,
        ) by {}
        lemma_pass(p, n, prev);
        assert(here.dom() == start.dom());
        let a = marked(prev);
        let b = marked(here);
        assert(a.subset_of(b));
        assert(b.subset_of(start.dom()));
        vstd::set_lib::lemma_len_subset(b, start.dom());
        if here != prev {
            let w = choose|w: Seq<char>| #[trigger] prev.dom().contains(w) && !prev[w] && here[w];
            assert(b.contains(w) && !a.contains(w));
            assert(a.insert(w).subset_of(b));
            vstd::set_lib::lemma_len_subset(a.insert(w), b);
        } else {
            lemma_stable(p, (k - 1) as nat, k + 1);
        }
    } else {
        let b = marked(here);
        assert(b.subset_of(start.dom()));
        vstd::set_lib::lemma_len_subset(b, start.dom());
    }
}

/// Which functions return secrets is settled: another pass finds no further one.
pub proof fn law_secret_returns_settled(p: XeresProgram)
    ensures
        leak_pass(p, p.functions@.len() as int, secret_returns(p)) == secret_returns(p),
{
    let n = p.functions@.len();
    lemma_growth(p, n);
    lemma_growth(p, n + 1);
    assert(leaks_after(p, n + 1) == leak_pass(p, n as int, leaks_after(p, n)));
    if leaks_after(p, n + 1) != leaks_after(p, n) {
        lemma_none_leak(p.functions@, n as int);
        let prev = leaks_after(p, n);
        let here = leaks_after(p, n + 1);
        assert forall|i: int| 0 <= i < p.functions@.len() implies prev.dom().contains(
            (#[trigger] p.functions@[i]).name@,
        ) by {}
        lemma_pass(p, n as int, prev);
        let w = choose|w: Seq<char>| #[trigger] prev.dom().contains(w) && !prev[w] && here[w];
        let a = marked(prev);
        let b = marked(here);
        assert(b.contains(w) && !a.contains(w));
        assert(a.insert(w).subset_of(b));
        vstd::set_lib::lemma_len_subset(a.insert(w), b);
    }
}

proof fn lemma_pass_unmarked(p: XeresProgram, n: int, rs: Map<Seq<char>, bool>, i: int)
    requires
        0 <= i < n <= p.functions@.len(),
        leak_pass(p, n, rs) == rs,
        forall|j: int| 0 <= j < p.functions@.len() ==> rs.dom().contains(
            (#[trigger] p.functions@[j]).name@,
        ),
    ensures
        leaks(p.functions@[i], p, rs) ==> rs[p.functions@[i].name@],
    decreases n,
{
    lemma_pass(p, n - 1, rs);
    let before = leak_pass(p, n - 1, rs);
    if before != rs {
        let k = choose|k: Seq<char>| #[trigger] rs.dom().contains(k) && !rs[k] && before[k];
        assert(leak_pass(p, n, rs)[k]);
    }
    if i < n - 1 {
        lemma_pass_unmarked(p, n - 1, rs, i);
    }
}

/// A function that returns secret-derived data, given which functions do, is one of them.
pub proof fn law_leaking_function_is_marked(p: XeresProgram, i: int)
    requires
        0 <= i < p.functions@.len(),
    ensures
        secret_returns(p).dom().contains(p.functions@[i].name@),
        leaks(p.functions@[i], p, secret_returns(p)) ==> secret_returns(p)[p.functions@[i].name@],
{
    let n = p.functions@.len();
    law_secret_returns_settled(p);
    lemma_growth(p, n);
    lemma_none_leak(p.functions@, n as int);
    assert forall|j: int| 0 <= j < p.functions@.len() implies secret_returns(p).dom().contains(
        (#[trigger] p.functions@[j]).name@,
    ) by {}
    lemma_pass_unmarked(p, n as int, secret_returns(p), i);
}

/// Whether every name that is marked in one map is marked in another.
pub open spec fn marks_at_most(a: Map<Seq<char>, bool>, b: Map<Seq<char>, bool>) -> bool {
    forall|k: Seq<char>| #[trigger] a.dom().contains(k) && a[k] ==> b.dom().contains(k) && b[k]
}

/// Whether every function that returns secret-derived data, given these marks, is marked.
pub open spec fn settles(p: XeresProgram, rs: Map<Seq<char>, bool>) -> bool {
    forall|i: int|
        0 <= i < p.functions@.len() && leaks(#[trigger] p.functions@[i], p, rs) ==> rs.dom().contains(
            p.functions@[i].name@,
        ) && rs[p.functions@[i].name@]
}

/// Whether two scopes hold the same names with the same types.
spec fn same_names(a: Map<Seq<char>, LocalView>, b: Map<Seq<char>, LocalView>) -> bool {
    &&& a.dom() == b.dom()
    &&& forall|k: Seq<char>| #[trigger] a.dom().contains(k) ==> a[k].ty == b[k].ty
}

/// Whether two scopes hold the same names with the same types, and what holds secret-derived data in
/// the first does in the second.
spec fn taints_at_most(a: Map<Seq<char>, LocalView>, b: Map<Seq<char>, LocalView>) -> bool {
    &&& same_names(a, b)
    &&& forall|k: Seq<char>| #[trigger] a.dom().contains(k) && a[k].tainted ==> b[k].tainted
}

proof fn lemma_same_names_typed(
    e: Expr,
    a: Map<Seq<char>, LocalView>,
    b: Map<Seq<char>, LocalView>,
    p: XeresProgram,
)
    requires
        same_names(a, b),
    ensures
        type_of(e, a, p) == type_of(e, b, p),
    decreases e,
{
    match e {
        Expr::Field { base, .. } => {
            lemma_same_names_typed(*base, a, b, p);
        },
        Expr::Call { args, .. } => {
            if args@.len() > 0 {
                lemma_same_names_typed(args@[0], a, b, p);
            }
        },
        Expr::Unary { expr, .. } => {
            lemma_same_names_typed(*expr, a, b, p);
        },
        Expr::Binary { left, right, .. } => {
            lemma_same_names_typed(*left, a, b, p);
            lemma_same_names_typed(*right, a, b, p);
        },
        Expr::Declassify(inner) => {
            lemma_same_names_typed(*inner, a, b, p);
        },
        Expr::Raw(inner) => {
            lemma_same_names_typed(*inner, a, b, p);
        },
        Expr::Await(inner) => {
            lemma_same_names_typed(*inner, a, b, p);
        },
        Expr::MethodCall { receiver, args, .. } => {
            lemma_same_names_typed(*receiver, a, b, p);
            if args@.len() > 0 {
                lemma_same_names_typed(args@[0], a, b, p);
                if args@[0] is Closure && args@[0]->Closure_params@.len() == 1 {
                    let elem = elem_of(type_of(*receiver, a, p));
                    let name = args@[0]->Closure_params@[0]@;
                    let x = a.insert(name, typed(Some(elem->0)));
                    let y = b.insert(name, typed(Some(elem->0)));
                    assert(x.dom() =~= y.dom());
                    lemma_same_names_typed(*args@[0]->Closure_body, x, y, p);
                }
            }
        },
        Expr::ListLit(items) => {
            if items@.len() > 0 {
                lemma_same_names_typed(items@[0], a, b, p);
            }
        },
        Expr::Ternary { yes, otherwise, .. } => {
            lemma_same_names_typed(*yes, a, b, p);
            lemma_same_names_typed(*otherwise, a, b, p);
        },
        Expr::Index { base, .. } => {
            lemma_same_names_typed(*base, a, b, p);
        },
        _ => {},
    }
}

proof fn lemma_taint_grows(
    e: Expr,
    a: Map<Seq<char>, LocalView>,
    b: Map<Seq<char>, LocalView>,
    p: XeresProgram,
    rs: Map<Seq<char>, bool>,
    more: Map<Seq<char>, bool>,
)
    requires
        taints_at_most(a, b),
        marks_at_most(rs, more),
        tainted(e, a, p, rs),
    ensures
        tainted(e, b, p, more),
    decreases e,
{
    match e {
        Expr::Field { base, .. } => {
            lemma_same_names_typed(*base, a, b, p);
            if tainted(*base, a, p, rs) {
                lemma_taint_grows(*base, a, b, p, rs, more);
            }
        },
        Expr::Unary { expr, .. } => {
            lemma_taint_grows(*expr, a, b, p, rs, more);
        },
        Expr::Binary { left, right, .. } => {
            if tainted(*left, a, p, rs) {
                lemma_taint_grows(*left, a, b, p, rs, more);
            } else {
                lemma_taint_grows(*right, a, b, p, rs, more);
            }
        },
        Expr::Raw(inner) => {
            lemma_taint_grows(*inner, a, b, p, rs, more);
        },
        Expr::ListLit(items) => {
            let i = choose|i: int| 0 <= i < items@.len() && tainted(#[trigger] items@[i], a, p, rs);
            lemma_taint_grows(items@[i], a, b, p, rs, more);
        },
        Expr::Record { fields, .. } => {
            let i = choose|i: int|
                0 <= i < fields@.len() && tainted((#[trigger] fields@[i]).1, a, p, rs);
            lemma_taint_grows(fields@[i].1, a, b, p, rs, more);
        },
        Expr::Ternary { cond, yes, otherwise } => {
            if tainted(*cond, a, p, rs) {
                lemma_taint_grows(*cond, a, b, p, rs, more);
            } else if tainted(*yes, a, p, rs) {
                lemma_taint_grows(*yes, a, b, p, rs, more);
            } else {
                lemma_taint_grows(*otherwise, a, b, p, rs, more);
            }
        },
        Expr::Range { start, end } => {
            if tainted(*start, a, p, rs) {
                lemma_taint_grows(*start, a, b, p, rs, more);
            } else {
                lemma_taint_grows(*end, a, b, p, rs, more);
            }
        },
        Expr::Index { base, index } => {
            if tainted(*base, a, p, rs) {
                lemma_taint_grows(*base, a, b, p, rs, more);
            } else {
                lemma_taint_grows(*index, a, b, p, rs, more);
            }
        },
        Expr::Closure { body, .. } => {
            lemma_taint_grows(*body, a, b, p, rs, more);
        },
        _ => {},
    }
}

proof fn lemma_flow_grows(
    ss: Seq<Stmt>,
    n: int,
    a: Map<Seq<char>, LocalView>,
    b: Map<Seq<char>, LocalView>,
    p: XeresProgram,
    rs: Map<Seq<char>, bool>,
    more: Map<Seq<char>, bool>,
)
    requires
        taints_at_most(a, b),
        marks_at_most(rs, more),
    ensures
        taints_at_most(flow_scope(ss, n, a, p, rs), flow_scope(ss, n, b, p, more)),
    decreases n,
{
    if 0 < n <= ss.len() {
        lemma_flow_grows(ss, n - 1, a, b, p, rs, more);
        let x = flow_scope(ss, n - 1, a, p, rs);
        let y = flow_scope(ss, n - 1, b, p, more);
        if let Stmt::Let { name, type_ann, value } = ss[n - 1] {
            lemma_same_names_typed(value, x, y, p);
            if tainted(value, x, p, rs) {
                lemma_taint_grows(value, x, y, p, rs, more);
            }
            assert(flow_scope(ss, n, a, p, rs).dom() =~= flow_scope(ss, n, b, p, more).dom());
        }
    }
}

proof fn lemma_stmt_grows(
    s: Stmt,
    a: Map<Seq<char>, LocalView>,
    b: Map<Seq<char>, LocalView>,
    p: XeresProgram,
    rs: Map<Seq<char>, bool>,
    more: Map<Seq<char>, bool>,
)
    requires
        taints_at_most(a, b),
        marks_at_most(rs, more),
        stmt_returns_secret(s, a, p, rs),
    ensures
        stmt_returns_secret(s, b, p, more),
    decreases s,
{
    match s {
        Stmt::Return(e) => {
            lemma_taint_grows(e, a, b, p, rs, more);
        },
        Stmt::Try { body, handler } => {
            if returns_secret_in(body@, a, p, rs) {
                lemma_body_grows(body@, a, b, p, rs, more);
            } else {
                lemma_body_grows(handler@, a, b, p, rs, more);
            }
        },
        Stmt::If { then_body, else_body, .. } => {
            if returns_secret_in(then_body@, a, p, rs) {
                lemma_body_grows(then_body@, a, b, p, rs, more);
            } else {
                lemma_body_grows(else_body@, a, b, p, rs, more);
            }
        },
        Stmt::For { var, iter, body } => {
            lemma_same_names_typed(iter, a, b, p);
            let l = typed(elem_of(type_of(iter, a, p)));
            assert(a.insert(var@, l).dom() =~= b.insert(var@, l).dom());
            lemma_body_grows(body@, a.insert(var@, l), b.insert(var@, l), p, rs, more);
        },
        Stmt::While { body, .. } => {
            lemma_body_grows(body@, a, b, p, rs, more);
        },
        Stmt::Match { arms, .. } => {
            let i = choose|i: int|
                0 <= i < arms@.len() && returns_secret_in((#[trigger] arms@[i]).body@, a, p, rs);
            lemma_body_grows(arms@[i].body@, a, b, p, rs, more);
        },
        Stmt::Transaction(body) => {
            lemma_body_grows(body@, a, b, p, rs, more);
        },
        _ => {},
    }
}

proof fn lemma_body_grows(
    ss: Seq<Stmt>,
    a: Map<Seq<char>, LocalView>,
    b: Map<Seq<char>, LocalView>,
    p: XeresProgram,
    rs: Map<Seq<char>, bool>,
    more: Map<Seq<char>, bool>,
)
    requires
        taints_at_most(a, b),
        marks_at_most(rs, more),
        returns_secret_in(ss, a, p, rs),
    ensures
        returns_secret_in(ss, b, p, more),
    decreases ss,
{
    let i = choose|i: int|
        0 <= i < ss.len() && stmt_returns_secret(
            #[trigger] ss[i],
            flow_scope(ss, i, a, p, rs),
            p,
            rs,
        );
    lemma_flow_grows(ss, i, a, b, p, rs, more);
    lemma_stmt_grows(
        ss[i],
        flow_scope(ss, i, a, p, rs),
        flow_scope(ss, i, b, p, more),
        p,
        rs,
        more,
    );
}

/// The more functions are known to return secret-derived data, the more do.
pub proof fn law_leaking_grows(
    f: FunctionNode,
    p: XeresProgram,
    rs: Map<Seq<char>, bool>,
    more: Map<Seq<char>, bool>,
)
    requires
        marks_at_most(rs, more),
        leaks(f, p, rs),
    ensures
        leaks(f, p, more),
{
    let ls = param_scope(f.params@, f.params@.len() as int);
    lemma_body_grows(f.body@, ls, ls, p, rs, more);
}

proof fn lemma_pass_at_most(
    p: XeresProgram,
    n: int,
    rs: Map<Seq<char>, bool>,
    more: Map<Seq<char>, bool>,
)
    requires
        marks_at_most(rs, more),
        settles(p, more),
        n <= p.functions@.len(),
    ensures
        marks_at_most(leak_pass(p, n, rs), more),
    decreases n,
{
    if n > 0 {
        lemma_pass_at_most(p, n - 1, rs, more);
        let before = leak_pass(p, n - 1, rs);
        let f = p.functions@[n - 1];
        if leaks(f, p, before) {
            law_leaking_grows(f, p, before, more);
        }
    }
}

proof fn lemma_after_at_most(p: XeresProgram, k: nat, more: Map<Seq<char>, bool>)
    requires
        settles(p, more),
    ensures
        marks_at_most(leaks_after(p, k), more),
    decreases k,
{
    let n = p.functions@.len() as int;
    if k == 0 {
        lemma_none_leak(p.functions@, n);
    } else {
        lemma_after_at_most(p, (k - 1) as nat, more);
        lemma_pass_at_most(p, n, leaks_after(p, (k - 1) as nat), more);
    }
}

/// The functions that are found to return secret-derived data are the fewest that settle: they settle,
/// and every marking that settles marks them too.
pub proof fn law_secret_returns_are_the_least(p: XeresProgram, rs: Map<Seq<char>, bool>)
    ensures
        settles(p, secret_returns(p)),
        settles(p, rs) ==> marks_at_most(secret_returns(p), rs),
{
    assert forall|i: int|
        0 <= i < p.functions@.len() && leaks(
            #[trigger] p.functions@[i],
            p,
            secret_returns(p),
        ) implies secret_returns(p).dom().contains(p.functions@[i].name@)
        && secret_returns(p)[p.functions@[i].name@] by {
        law_leaking_function_is_marked(p, i);
    }
    if settles(p, rs) {
        lemma_after_at_most(p, p.functions@.len(), rs);
    }
}

fn one_pass(p: &XeresProgram, rs: &mut StrMap<bool>) -> (changed: bool)
    requires
        forall|i: int| 0 <= i < p.functions@.len() ==> old(rs)@.dom().contains(
            (#[trigger] p.functions@[i]).name@,
        ),
    ensures
        final(rs)@ == leak_pass(*p, p.functions@.len() as int, old(rs)@),
        !changed ==> final(rs)@ == old(rs)@,
{
    let mut changed = false;
    let mut i: usize = 0;
    while i < p.functions.len()
        invariant
            i <= p.functions.len(),
            forall|j: int| 0 <= j < p.functions@.len() ==> old(rs)@.dom().contains(
                (#[trigger] p.functions@[j]).name@,
            ),
            rs@ == leak_pass(*p, i as int, old(rs)@),
            !changed ==> rs@ == old(rs)@,
        decreases p.functions.len() - i,
    {
        let f = &p.functions[i];
        proof {
            lemma_pass(*p, i as int, old(rs)@);
        }
        let known = match rs.get(&f.name) {
            Some(b) => *b,
            None => false,
        };
        if function_returns_secret(f, p, rs) && !known {
            rs.insert(f.name.clone(), true);
            changed = true;
        }
        i = i + 1;
    }
    changed
}

/// Finds out which functions return secret-derived data, directly or through calls.
pub fn find_secret_returns(p: &XeresProgram) -> (r: StrMap<bool>)
    ensures
        r@ == secret_returns(*p),
{
    let n: usize = p.functions.len();
    let mut rs: StrMap<bool> = StrMap::new();
    let mut i: usize = 0;
    while i < n
        invariant
            i <= n,
            n == p.functions@.len(),
            rs@ == none_leak(p.functions@, i as int),
        decreases n - i,
    {
        rs.insert(p.functions[i].name.clone(), false);
        i = i + 1;
    }
    let mut k: usize = 0;
    while k < n
        invariant
            k <= n,
            n == p.functions@.len(),
            rs@ == leaks_after(*p, k as nat),
        decreases n - k,
    {
        proof {
            lemma_growth(*p, k as nat);
            lemma_none_leak(p.functions@, n as int);
        }
        let changed = one_pass(p, &mut rs);
        k = k + 1;
        if !changed {
            proof {
                assert(leaks_after(*p, k as nat) == leaks_after(*p, (k - 1) as nat));
                lemma_stable(*p, (k - 1) as nat, n as nat);
            }
            return rs;
        }
    }
    rs
}

/// `declassify(e)` and `await e` are clean, whatever `e` holds.
pub proof fn law_release_launders(
    e: Expr,
    ls: Map<Seq<char>, LocalView>,
    p: XeresProgram,
    rs: Map<Seq<char>, bool>,
)
    ensures
        e is Declassify || e is Await ==> !tainted(e, ls, p, rs),
{
}

/// Wrapping a secret in a record or a list, operating on it or marking it as HTML does not launder it.
pub proof fn law_wrapping_keeps_taint(
    e: Expr,
    i: int,
    ls: Map<Seq<char>, LocalView>,
    p: XeresProgram,
    rs: Map<Seq<char>, bool>,
)
    ensures
        e matches Expr::Raw(inner) ==> tainted(*inner, ls, p, rs) ==> tainted(e, ls, p, rs),
        e matches Expr::Unary { expr, .. } ==> tainted(*expr, ls, p, rs) ==> tainted(e, ls, p, rs),
        e matches Expr::ListLit(items) ==> 0 <= i < items@.len() && tainted(items@[i], ls, p, rs)
            ==> tainted(e, ls, p, rs),
        e matches Expr::Record { fields, .. } ==> 0 <= i < fields@.len() && tainted(
            fields@[i].1,
            ls,
            p,
            rs,
        ) ==> tainted(e, ls, p, rs),
{
    if let Expr::ListLit(items) = e {
        if 0 <= i < items@.len() && tainted(items@[i], ls, p, rs) {
            assert(tainted(items@[i], ls, p, rs));
        }
    }
    if let Expr::Record { fields, .. } = e {
        if 0 <= i < fields@.len() && tainted(fields@[i].1, ls, p, rs) {
            assert(tainted(fields@[i].1, ls, p, rs));
        }
    }
}

} // verus!
