//! What the linking of modules keeps of the boundary between them: a call of what another module does
//! not export is refused wherever it stands.
use vstd::prelude::*;

use crate::ast::{Expr, FunctionNode, MatchArm, Stmt};
use crate::modules::{
    all_function_diags, directory_of, entry_first, function_link_diags, link_diags, own_function_diags,
    ModuleView,
};
use crate::qualify::{
    exports, imports, names_module, owner, qual_all, qual_arms, qual_diags, qual_fields, qual_stmt,
    qual_stmts, CallerView, DirectoryView,
};

verus! {

/// Whether a call reaches over a module boundary where it may not: through the name of a module that is
/// not imported or that does not export the function, or to a function of another module by its bare
/// name.
pub open spec fn trespasses(e: Expr, c: CallerView, d: DirectoryView) -> bool {
    match e {
        Expr::MethodCall { receiver, method, .. } => names_module(*receiver, c, d) && !(imports(
            d,
            c.module,
            receiver->Ident_0@,
        ) && exports(d, receiver->Ident_0@, method@)),
        Expr::Call { callee, .. } => owner(d.functions, callee@, d.functions.len() as int) matches Some(
            m,
        ) && m != c.module,
        _ => false,
    }
}

/// Whether an expression holds such a call.
pub open spec fn holds_trespass(e: Expr, c: CallerView, d: DirectoryView) -> bool
    decreases e,
{
    trespasses(e, c, d) || match e {
        Expr::Int(_)
        | Expr::Float(_)
        | Expr::Str(_)
        | Expr::Bool(_)
        | Expr::Ident(_)
        | Expr::NoneLit => false,
        Expr::Field { base, .. } => holds_trespass(*base, c, d),
        Expr::Unary { expr, .. } => holds_trespass(*expr, c, d),
        Expr::Binary { left, right, .. } => holds_trespass(*left, c, d) || holds_trespass(*right, c, d),
        Expr::Call { args, .. } => exists|i: int|
            0 <= i < args@.len() && holds_trespass(#[trigger] args@[i], c, d),
        Expr::MethodCall { receiver, args, .. } => {
            ||| holds_trespass(*receiver, c, d)
            ||| exists|i: int| 0 <= i < args@.len() && holds_trespass(#[trigger] args@[i], c, d)
        },
        Expr::Declassify(inner) => holds_trespass(*inner, c, d),
        Expr::Raw(inner) => holds_trespass(*inner, c, d),
        Expr::Await(inner) => holds_trespass(*inner, c, d),
        Expr::Record { fields, .. } => exists|i: int|
            0 <= i < fields@.len() && holds_trespass((#[trigger] fields@[i]).1, c, d),
        Expr::ListLit(items) => exists|i: int|
            0 <= i < items@.len() && holds_trespass(#[trigger] items@[i], c, d),
        Expr::Ternary { cond, yes, otherwise } => holds_trespass(*cond, c, d) || holds_trespass(
            *yes,
            c,
            d,
        ) || holds_trespass(*otherwise, c, d),
        Expr::Range { start, end } => holds_trespass(*start, c, d) || holds_trespass(*end, c, d),
        Expr::Index { base, index } => holds_trespass(*base, c, d) || holds_trespass(*index, c, d),
        Expr::Closure { body, .. } => holds_trespass(*body, c, d),
    }
}

/// Whether a statement holds such a call.
pub open spec fn stmt_trespasses(s: Stmt, c: CallerView, d: DirectoryView) -> bool
    decreases s,
{
    match s {
        Stmt::Let { value, .. } => holds_trespass(value, c, d),
        Stmt::Assign { value, .. } => holds_trespass(value, c, d),
        Stmt::Return(e) => holds_trespass(e, c, d),
        Stmt::Expr(e) => holds_trespass(e, c, d),
        Stmt::Try { body, handler } => {
            ||| exists|i: int| 0 <= i < body@.len() && stmt_trespasses(#[trigger] body@[i], c, d)
            ||| exists|i: int| 0 <= i < handler@.len() && stmt_trespasses(#[trigger] handler@[i], c, d)
        },
        Stmt::If { cond, then_body, else_body } => {
            ||| holds_trespass(cond, c, d)
            ||| exists|i: int|
                0 <= i < then_body@.len() && stmt_trespasses(#[trigger] then_body@[i], c, d)
            ||| exists|i: int|
                0 <= i < else_body@.len() && stmt_trespasses(#[trigger] else_body@[i], c, d)
        },
        Stmt::For { iter, body, .. } => {
            ||| holds_trespass(iter, c, d)
            ||| exists|i: int| 0 <= i < body@.len() && stmt_trespasses(#[trigger] body@[i], c, d)
        },
        Stmt::While { cond, body } => {
            ||| holds_trespass(cond, c, d)
            ||| exists|i: int| 0 <= i < body@.len() && stmt_trespasses(#[trigger] body@[i], c, d)
        },
        Stmt::Match { scrutinee, arms } => {
            ||| holds_trespass(scrutinee, c, d)
            ||| exists|i: int, j: int|
                0 <= i < arms@.len() && 0 <= j < arms@[i].body@.len() && stmt_trespasses(
                    #[trigger] arms@[i].body@[j],
                    c,
                    d,
                )
        },
        Stmt::Transaction(body) => exists|i: int|
            0 <= i < body@.len() && stmt_trespasses(#[trigger] body@[i], c, d),
        Stmt::Break | Stmt::Continue => false,
    }
}

proof fn lemma_all_part(es: Seq<Expr>, n: int, i: int, c: CallerView, d: DirectoryView)
    requires
        0 <= i < n <= es.len(),
    ensures
        qual_all(es, n, c, d).len() >= qual_diags(es[i], c, d).len(),
    decreases n,
{
    if i < n - 1 {
        lemma_all_part(es, n - 1, i, c, d);
    }
}

proof fn lemma_fields_part(fs: Seq<(String, Expr)>, n: int, i: int, c: CallerView, d: DirectoryView)
    requires
        0 <= i < n <= fs.len(),
    ensures
        qual_fields(fs, n, c, d).len() >= qual_diags(fs[i].1, c, d).len(),
    decreases n,
{
    if i < n - 1 {
        lemma_fields_part(fs, n - 1, i, c, d);
    }
}

proof fn lemma_stmts_part(ss: Seq<Stmt>, n: int, i: int, c: CallerView, d: DirectoryView)
    requires
        0 <= i < n <= ss.len(),
    ensures
        qual_stmts(ss, n, c, d).len() >= qual_stmt(ss[i], c, d).len(),
    decreases n,
{
    if i < n - 1 {
        lemma_stmts_part(ss, n - 1, i, c, d);
    }
}

proof fn lemma_arms_part(arms: Seq<MatchArm>, n: int, i: int, c: CallerView, d: DirectoryView)
    requires
        0 <= i < n <= arms.len(),
    ensures
        qual_arms(arms, n, c, d).len() >= qual_stmts(
            arms[i].body@,
            arms[i].body@.len() as int,
            c,
            d,
        ).len(),
    decreases n,
{
    if i < n - 1 {
        lemma_arms_part(arms, n - 1, i, c, d);
    }
}

proof fn lemma_trespass_reported(e: Expr, c: CallerView, d: DirectoryView)
    requires
        holds_trespass(e, c, d),
    ensures
        qual_diags(e, c, d).len() > 0,
    decreases e,
{
    if !trespasses(e, c, d) {
        match e {
            Expr::Int(_)
            | Expr::Float(_)
            | Expr::Str(_)
            | Expr::Bool(_)
            | Expr::Ident(_)
            | Expr::NoneLit => {},
            Expr::Field { base, .. } => lemma_trespass_reported(*base, c, d),
            Expr::Unary { expr, .. } => lemma_trespass_reported(*expr, c, d),
            Expr::Binary { left, right, .. } => {
                if holds_trespass(*left, c, d) {
                    lemma_trespass_reported(*left, c, d);
                } else {
                    lemma_trespass_reported(*right, c, d);
                }
            },
            Expr::Call { args, .. } => {
                let i = choose|i: int| 0 <= i < args@.len() && holds_trespass(#[trigger] args@[i], c, d);
                lemma_trespass_reported(args@[i], c, d);
                lemma_all_part(args@, args@.len() as int, i, c, d);
            },
            Expr::MethodCall { receiver, args, .. } => {
                if holds_trespass(*receiver, c, d) {
                    lemma_trespass_reported(*receiver, c, d);
                } else {
                    let i = choose|i: int|
                        0 <= i < args@.len() && holds_trespass(#[trigger] args@[i], c, d);
                    lemma_trespass_reported(args@[i], c, d);
                    lemma_all_part(args@, args@.len() as int, i, c, d);
                }
            },
            Expr::Declassify(inner) => lemma_trespass_reported(*inner, c, d),
            Expr::Raw(inner) => lemma_trespass_reported(*inner, c, d),
            Expr::Await(inner) => lemma_trespass_reported(*inner, c, d),
            Expr::Record { fields, .. } => {
                let i = choose|i: int|
                    0 <= i < fields@.len() && holds_trespass((#[trigger] fields@[i]).1, c, d);
                lemma_trespass_reported(fields@[i].1, c, d);
                lemma_fields_part(fields@, fields@.len() as int, i, c, d);
            },
            Expr::ListLit(items) => {
                let i = choose|i: int| 0 <= i < items@.len() && holds_trespass(#[trigger] items@[i], c, d);
                lemma_trespass_reported(items@[i], c, d);
                lemma_all_part(items@, items@.len() as int, i, c, d);
            },
            Expr::Ternary { cond, yes, otherwise } => {
                if holds_trespass(*cond, c, d) {
                    lemma_trespass_reported(*cond, c, d);
                } else if holds_trespass(*yes, c, d) {
                    lemma_trespass_reported(*yes, c, d);
                } else {
                    lemma_trespass_reported(*otherwise, c, d);
                }
            },
            Expr::Range { start, end } => {
                if holds_trespass(*start, c, d) {
                    lemma_trespass_reported(*start, c, d);
                } else {
                    lemma_trespass_reported(*end, c, d);
                }
            },
            Expr::Index { base, index } => {
                if holds_trespass(*base, c, d) {
                    lemma_trespass_reported(*base, c, d);
                } else {
                    lemma_trespass_reported(*index, c, d);
                }
            },
            Expr::Closure { body, .. } => lemma_trespass_reported(*body, c, d),
        }
    }
}

proof fn lemma_trespass_in_list(ss: Seq<Stmt>, i: int, c: CallerView, d: DirectoryView)
    requires
        0 <= i < ss.len(),
        stmt_trespasses(ss[i], c, d),
    ensures
        qual_stmts(ss, ss.len() as int, c, d).len() > 0,
    decreases ss,
{
    lemma_trespass_in_stmt(ss[i], c, d);
    lemma_stmts_part(ss, ss.len() as int, i, c, d);
}

proof fn lemma_trespass_in_stmt(s: Stmt, c: CallerView, d: DirectoryView)
    requires
        stmt_trespasses(s, c, d),
    ensures
        qual_stmt(s, c, d).len() > 0,
    decreases s,
{
    match s {
        Stmt::Let { value, .. } => lemma_trespass_reported(value, c, d),
        Stmt::Assign { value, .. } => lemma_trespass_reported(value, c, d),
        Stmt::Return(e) => lemma_trespass_reported(e, c, d),
        Stmt::Expr(e) => lemma_trespass_reported(e, c, d),
        Stmt::Try { body, handler } => {
            if exists|i: int| 0 <= i < body@.len() && stmt_trespasses(#[trigger] body@[i], c, d) {
                let i = choose|i: int| 0 <= i < body@.len() && stmt_trespasses(#[trigger] body@[i], c, d);
                lemma_trespass_in_list(body@, i, c, d);
            } else {
                let i = choose|i: int|
                    0 <= i < handler@.len() && stmt_trespasses(#[trigger] handler@[i], c, d);
                lemma_trespass_in_list(handler@, i, c, d);
            }
        },
        Stmt::If { cond, then_body, else_body } => {
            if holds_trespass(cond, c, d) {
                lemma_trespass_reported(cond, c, d);
            } else if exists|i: int|
                0 <= i < then_body@.len() && stmt_trespasses(#[trigger] then_body@[i], c, d) {
                let i = choose|i: int|
                    0 <= i < then_body@.len() && stmt_trespasses(#[trigger] then_body@[i], c, d);
                lemma_trespass_in_list(then_body@, i, c, d);
            } else {
                let i = choose|i: int|
                    0 <= i < else_body@.len() && stmt_trespasses(#[trigger] else_body@[i], c, d);
                lemma_trespass_in_list(else_body@, i, c, d);
            }
        },
        Stmt::For { iter, body, .. } => {
            if holds_trespass(iter, c, d) {
                lemma_trespass_reported(iter, c, d);
            } else {
                let i = choose|i: int| 0 <= i < body@.len() && stmt_trespasses(#[trigger] body@[i], c, d);
                lemma_trespass_in_list(body@, i, c, d);
            }
        },
        Stmt::While { cond, body } => {
            if holds_trespass(cond, c, d) {
                lemma_trespass_reported(cond, c, d);
            } else {
                let i = choose|i: int| 0 <= i < body@.len() && stmt_trespasses(#[trigger] body@[i], c, d);
                lemma_trespass_in_list(body@, i, c, d);
            }
        },
        Stmt::Match { scrutinee, arms } => {
            if holds_trespass(scrutinee, c, d) {
                lemma_trespass_reported(scrutinee, c, d);
            } else {
                let (i, j) = choose|i: int, j: int|
                    0 <= i < arms@.len() && 0 <= j < arms@[i].body@.len() && stmt_trespasses(
                        #[trigger] arms@[i].body@[j],
                        c,
                        d,
                    );
                lemma_trespass_in_list(arms@[i].body@, j, c, d);
                lemma_arms_part(arms@, arms@.len() as int, i, c, d);
            }
        },
        Stmt::Transaction(body) => {
            let i = choose|i: int| 0 <= i < body@.len() && stmt_trespasses(#[trigger] body@[i], c, d);
            lemma_trespass_in_list(body@, i, c, d);
        },
        Stmt::Break | Stmt::Continue => {},
    }
}

proof fn lemma_own_part(
    own: Seq<FunctionNode>,
    n: int,
    i: int,
    m: Seq<char>,
    file: Seq<char>,
    d: DirectoryView,
)
    requires
        0 <= i < n <= own.len(),
    ensures
        own_function_diags(own, n, m, file, d).len() >= function_link_diags(own[i], m, file, d).len(),
    decreases n,
{
    if i < n - 1 {
        lemma_own_part(own, n - 1, i, m, file, d);
    }
}

proof fn lemma_modules_part(ms: Seq<ModuleView>, n: int, i: int, d: DirectoryView)
    requires
        0 <= i < n <= ms.len(),
    ensures
        all_function_diags(ms, n, d).len() >= own_function_diags(
            ms[i].program.functions@,
            ms[i].program.functions@.len() as int,
            ms[i].name,
            ms[i].file,
            d,
        ).len(),
    decreases n,
{
    if i < n - 1 {
        lemma_modules_part(ms, n - 1, i, d);
    }
}

/// Only what a module exports crosses its boundary: a set of modules is not merged where a statement of
/// a function, `k` of function `f` of module `i`, holds a call that reaches over a boundary otherwise.
pub proof fn law_trespass_is_refused(ms: Seq<ModuleView>, i: int, f: int, k: int)
    requires
        0 <= i < ms.len(),
        0 <= f < ms[i].program.functions@.len(),
        0 <= k < ms[i].program.functions@[f].body@.len(),
        stmt_trespasses(
            ms[i].program.functions@[f].body@[k],
            CallerView {
                module: ms[i].name,
                file: ms[i].file,
                line: ms[i].program.functions@[f].line as nat,
            },
            directory_of(entry_first(ms)),
        ),
    ensures
        link_diags(ms).len() > 0,
{
    let es = entry_first(ms);
    let d = directory_of(es);
    let fun = ms[i].program.functions@[f];
    let c = CallerView { module: ms[i].name, file: ms[i].file, line: fun.line as nat };
    lemma_trespass_in_list(fun.body@, k, c, d);
    let own = ms[i].program.functions@;
    lemma_own_part(own, own.len() as int, f, ms[i].name, ms[i].file, d);
    if i == ms.len() - 1 {
        assert(es[0] == ms[i]);
        lemma_modules_part(es, es.len() as int, 0, d);
    } else {
        assert(es[i + 1] == ms[i]);
        lemma_modules_part(es, es.len() as int, i + 1, d);
    }
}

} // verus!
