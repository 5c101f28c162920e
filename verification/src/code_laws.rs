//! Generated statements mean what they were generated from: what is printed of a body reads back as the
//! same statements in the same order, each condition before what it guards.
use vstd::prelude::*;
use vstd::string::*;

use crate::ast::{Expr, MatchArm, Stmt};
use crate::emit::{expr_text, exprs_text};
use crate::emit_laws::{
    is_free_name, is_plain, is_shared, law_handlers_print_as_the_client_does, lemma_reads, lemma_split,
    lemma_stands_at, lemma_starts, lemma_user_call, lemma_word_end, tree_of,
};
use crate::emit_handler::{h_arms_text, h_block_text, h_stmt_text, h_stmts_text};
use crate::emit_stmt::{arms_text, block_text, server_stmt_text, stmt_text, stmts_text};
use crate::reader::{
    is_numeral, is_word, is_wordy, read, read_block, read_condition, read_first, read_for,
    read_list, read_more, read_stmt, read_until, stands, word_at, word_end, Code, Tree,
};
use crate::run_laws::lemma_join_one;
use crate::text::join_text;

verus! {

/// Whether a name is none of the words that start a statement or go on with one.
pub open spec fn is_code_name(v: Seq<char>) -> bool {
    &&& is_free_name(v)
    &&& v != "return"@
    &&& v != "let"@
    &&& v != "if"@
    &&& v != "while"@
    &&& v != "for"@
    &&& v != "break"@
    &&& v != "continue"@
    &&& v != "else"@
}

/// Whether a statement binds, assigns, returns, calls, chooses or repeats, on plain expressions.
pub open spec fn is_plain_stmt(s: Stmt) -> bool
    decreases s,
{
    match s {
        Stmt::Let { name, value, .. } => is_code_name(name@) && is_plain(value),
        Stmt::Assign { name, value } => is_code_name(name@) && is_plain(value),
        Stmt::Return(e) => is_plain(e),
        Stmt::Expr(e) => is_plain(e) && e is Call && is_code_name(e->Call_callee@),
        Stmt::If { cond, then_body, else_body } => is_plain(cond) && is_plain_body(then_body@)
            && is_plain_body(else_body@),
        Stmt::While { cond, body } => is_plain(cond) && is_plain_body(body@),
        Stmt::For { var, iter, body } => is_code_name(var@) && is_plain_body(body@) && match iter {
            Expr::Range { start, end } => is_plain(*start) && is_plain(*end),
            Expr::Ident(_) => is_plain(iter),
            _ => false,
        },
        Stmt::Break | Stmt::Continue => true,
        _ => false,
    }
}

/// Whether all statements of a body do.
pub open spec fn is_plain_body(ss: Seq<Stmt>) -> bool
    decreases ss,
{
    forall|i: int| 0 <= i < ss.len() ==> is_plain_stmt(#[trigger] ss[i])
}

/// What a statement is in either language. Rust walks a copy of a list.
pub open spec fn code_of(s: Stmt, ts: bool) -> Code
    decreases s,
{
    match s {
        Stmt::Let { name, value, .. } => Code::Let(name@, tree_of(value)),
        Stmt::Assign { name, value } => Code::Put(name@, tree_of(value)),
        Stmt::Return(e) => Code::Return(tree_of(e)),
        Stmt::Expr(e) => Code::Do(tree_of(e)),
        Stmt::If { cond, then_body, else_body } => Code::If(
            tree_of(cond),
            codes_of(then_body@, then_body@.len() as int, ts),
            codes_of(else_body@, else_body@.len() as int, ts),
        ),
        Stmt::While { cond, body } => Code::While(
            tree_of(cond),
            codes_of(body@, body@.len() as int, ts),
        ),
        Stmt::For { var, iter, body } => match iter {
            Expr::Range { start, end } => Code::Count(
                var@,
                tree_of(*start),
                tree_of(*end),
                codes_of(body@, body@.len() as int, ts),
            ),
            _ => Code::Each(
                var@,
                if ts {
                    tree_of(iter)
                } else {
                    Tree::Method(Box::new(tree_of(iter)), "clone"@, Seq::empty())
                },
                codes_of(body@, body@.len() as int, ts),
            ),
        },
        Stmt::Continue => Code::Continue,
        _ => Code::Break,
    }
}

/// What the first `n` statements are in either language.
pub open spec fn codes_of(ss: Seq<Stmt>, n: int, ts: bool) -> Seq<Code>
    decreases ss, n,
{
    if n <= 0 || n > ss.len() {
        Seq::empty()
    } else {
        codes_of(ss, n - 1, ts).push(code_of(ss[n - 1], ts))
    }
}

/// The word that binds a name.
pub open spec fn binder(ts: bool) -> Seq<char> {
    if ts {
        "let"@
    } else {
        "let mut"@
    }
}

proof fn lemma_keywords()
    ensures
        is_word("return"@) && is_word("let"@) && is_word("if"@) && is_word("while"@) && is_word("for"@)
            && is_word("break"@) && is_word("continue"@) && is_word("clone"@),
        "return"@.len() == 6 && "let"@.len() == 3 && "if"@.len() == 2 && "while"@.len() == 5
            && "for"@.len() == 3 && "break"@.len() == 5 && "continue"@.len() == 8 && "else"@.len() == 4
            && "clone"@.len() == 5,
        "let"@ != "for"@,
        "while"@ != "break"@,
{
    reveal_strlit("return");
    reveal_strlit("let");
    reveal_strlit("if");
    reveal_strlit("while");
    reveal_strlit("for");
    reveal_strlit("break");
    reveal_strlit("continue");
    reveal_strlit("else");
    reveal_strlit("clone");
    assert("let"@[0] == 'l' && "for"@[0] == 'f' && "while"@[0] == 'w' && "break"@[0] == 'b');
}

proof fn lemma_marks()
    ensures
        ";"@.len() == 1 && ";"@[0] == ';',
        " "@.len() == 1 && " "@[0] == ' ',
        " = "@.len() == 3 && " = "@[0] == ' ' && " = "@[1] == '=',
        " { "@.len() == 3 && " { "@[0] == ' ' && " { "@[1] == '{',
        " }"@.len() == 2 && " }"@[0] == ' ' && " }"@[1] == '}',
        "("@.len() == 1 && "("@[0] == '(',
        ") { "@.len() == 4 && ") { "@[0] == ')',
        " else { "@.len() == 8 && " else { "@[0] == ' ' && " else { "@[1] == 'e',
        " in "@.len() == 4 && " in "@[0] == ' ',
        " of "@.len() == 4 && " of "@[0] == ' ',
        ".."@.len() == 2 && ".."@[0] == '.' && ".."@[1] == '.',
        " mut "@.len() == 5 && " mut "@[0] == ' ',
{
    reveal_strlit(";");
    reveal_strlit(" ");
    reveal_strlit(" = ");
    reveal_strlit(" { ");
    reveal_strlit(" }");
    reveal_strlit("(");
    reveal_strlit(") { ");
    reveal_strlit(" else { ");
    reveal_strlit(" in ");
    reveal_strlit(" of ");
    reveal_strlit("..");
    reveal_strlit(" mut ");
}

proof fn lemma_word_at(s: Seq<char>, i: int, v: Seq<char>)
    requires
        is_word(v),
        stands(s, i, v),
        i + v.len() < s.len(),
        !is_wordy(s[i + v.len()]),
    ensures
        word_end(s, i) == i + v.len(),
        word_at(s, i) == v,
{
    lemma_word_end(s, i, v);
}

/// Whether a mark ends an expression for good.
spec fn is_mark(m: Seq<char>) -> bool {
    m.len() > 0 && !is_wordy(m[0]) && m[0] != '(' && m[0] != '!' && (m[0] == '.' ==> m.len() > 1
        && !is_wordy(m[1]))
}

proof fn lemma_until(s: Seq<char>, i: int, e: Expr, ts: bool, eps: Seq<Seq<char>>, mark: Seq<char>)
    requires
        is_plain(e),
        is_mark(mark),
        stands(s, i, expr_text(e, ts, eps)),
        stands(s, i + expr_text(e, ts, eps).len(), mark),
    ensures
        read(s, i, ts) == Some((tree_of(e), i + expr_text(e, ts, eps).len())),
        read_until(s, i, ts, mark) == Some(
            (tree_of(e), i + expr_text(e, ts, eps).len() + mark.len()),
        ),
{
    let j = i + expr_text(e, ts, eps).len();
    lemma_stands_at(s, j, mark, 0);
    if mark.len() > 1 {
        lemma_stands_at(s, j, mark, 1);
    }
    lemma_starts(e, ts, eps);
    lemma_reads(s, i, e, ts, eps);
}

/// The text of a condition, up to its block.
spec fn guard_text(c: Expr, ts: bool, eps: Seq<Seq<char>>) -> Seq<char> {
    if ts {
        "("@ + expr_text(c, ts, eps) + ") { "@
    } else {
        expr_text(c, ts, eps) + " { "@
    }
}

proof fn lemma_condition(s: Seq<char>, i: int, c: Expr, ts: bool, eps: Seq<Seq<char>>)
    requires
        is_plain(c),
        stands(s, i, guard_text(c, ts, eps)),
    ensures
        read_condition(s, i, ts) == Some((tree_of(c), i + guard_text(c, ts, eps).len())),
{
    lemma_marks();
    let t = expr_text(c, ts, eps);
    if ts {
        lemma_split(s, i, "("@ + t, ") { "@);
        lemma_split(s, i, "("@, t);
        lemma_until(s, i + 1, c, ts, eps, ") { "@);
    } else {
        lemma_split(s, i, t, " { "@);
        lemma_until(s, i, c, ts, eps, " { "@);
    }
}

/// What the text of a plain statement starts with: a word that is not `else`, and something behind it that
/// is no part of it.
spec fn opens(t: Seq<char>, v: Seq<char>) -> bool {
    &&& is_word(v)
    &&& v != "else"@
    &&& v.len() < t.len()
    &&& t.subrange(0, v.len() as int) == v
    &&& !is_wordy(t[v.len() as int])
}

proof fn lemma_opens_with(v: Seq<char>, rest: Seq<char>)
    requires
        is_word(v),
        v != "else"@,
        rest.len() > 0,
        !is_wordy(rest[0]),
    ensures
        opens(v + rest, v),
{
    let t = v + rest;
    assert(t.subrange(0, v.len() as int) =~= v);
    assert(t[v.len() as int] == rest[0]);
}

/// What stands behind the first word of a statement's text.
spec fn tail_text(s: Stmt, ts: bool, eps: Seq<Seq<char>>) -> Seq<char> {
    match s {
        Stmt::Let { name, value, .. } => (if ts {
            " "@
        } else {
            " mut "@
        }) + name@ + " = "@ + expr_text(value, ts, eps) + ";"@,
        Stmt::Assign { name, value } => " = "@ + expr_text(value, ts, eps) + ";"@,
        Stmt::Return(e) => " "@ + expr_text(e, ts, eps) + ";"@,
        Stmt::If { cond, then_body, else_body } => " "@ + guard_text(cond, ts, eps) + block_text(
            then_body@,
            binder(ts),
            ts,
            eps,
        ) + " }"@ + (if else_body@.len() == 0 {
            Seq::empty()
        } else {
            " else { "@ + block_text(else_body@, binder(ts), ts, eps) + " }"@
        }),
        Stmt::While { cond, body } => " "@ + guard_text(cond, ts, eps) + block_text(
            body@,
            binder(ts),
            ts,
            eps,
        ) + " }"@,
        _ => ";"@,
    }
}

/// The first word of a statement's text.
spec fn head_word(s: Stmt) -> Seq<char> {
    match s {
        Stmt::Let { .. } => "let"@,
        Stmt::Assign { name, .. } => name@,
        Stmt::Return(_) => "return"@,
        Stmt::If { .. } => "if"@,
        Stmt::While { .. } => "while"@,
        Stmt::For { .. } => "for"@,
        Stmt::Continue => "continue"@,
        Stmt::Expr(e) => e->Call_callee@,
        _ => "break"@,
    }
}

proof fn lemma_shape_let(s: Stmt, ts: bool, eps: Seq<Seq<char>>)
    requires
        is_plain_stmt(s),
        s is Let,
    ensures
        stmt_text(s, binder(ts), ts, eps) == head_word(s) + tail_text(s, ts, eps),
        tail_text(s, ts, eps).len() > 0,
        !is_wordy(tail_text(s, ts, eps)[0]),
{
    reveal_strlit("let");
    reveal_strlit("let mut");
    reveal_strlit(" mut ");
    reveal_strlit(" ");
    let name = s->Let_name@;
    let t = expr_text(s->Let_value, ts, eps);
    if !ts {
        assert("let mut"@ + " "@ =~= "let"@ + " mut "@);
        assert("let mut"@ + " "@ + name + " = "@ + t + ";"@ =~= "let"@ + (" mut "@ + name + " = "@ + t
            + ";"@));
        assert((" mut "@ + name + " = "@ + t + ";"@)[0] == ' ');
    } else {
        assert("let"@ + " "@ + name + " = "@ + t + ";"@ =~= "let"@ + (" "@ + name + " = "@ + t + ";"@));
        assert((" "@ + name + " = "@ + t + ";"@)[0] == ' ');
    }
}

proof fn lemma_shape_assign(s: Stmt, ts: bool, eps: Seq<Seq<char>>)
    requires
        is_plain_stmt(s),
        s is Assign,
    ensures
        stmt_text(s, binder(ts), ts, eps) == head_word(s) + tail_text(s, ts, eps),
        tail_text(s, ts, eps).len() > 0,
        !is_wordy(tail_text(s, ts, eps)[0]),
{
    reveal_strlit(" = ");
    let name = s->Assign_name@;
    let t = expr_text(s->Assign_value, ts, eps);
    assert(name + " = "@ + t + ";"@ =~= name + (" = "@ + t + ";"@));
    assert((" = "@ + t + ";"@)[0] == ' ');
}

proof fn lemma_shape_return(s: Stmt, ts: bool, eps: Seq<Seq<char>>)
    requires
        is_plain_stmt(s),
        s is Return,
    ensures
        stmt_text(s, binder(ts), ts, eps) == head_word(s) + tail_text(s, ts, eps),
        tail_text(s, ts, eps).len() > 0,
        !is_wordy(tail_text(s, ts, eps)[0]),
{
    reveal_strlit("return ");
    reveal_strlit("return");
    reveal_strlit(" ");
    let t = expr_text(s->Return_0, ts, eps);
    assert("return "@ =~= "return"@ + " "@);
    assert("return "@ + t + ";"@ =~= "return"@ + (" "@ + t + ";"@));
    assert((" "@ + t + ";"@)[0] == ' ');
}

proof fn lemma_guarded(word: Seq<char>, open: Seq<char>, spaced: Seq<char>, c: Expr, ts: bool, eps: Seq<Seq<char>>)
    requires
        open == word + " "@ + "("@,
        spaced == word + " "@,
    ensures
        (if ts {
            open + expr_text(c, ts, eps) + ")"@
        } else {
            spaced + expr_text(c, ts, eps)
        }) + " { "@ == word + (" "@ + guard_text(c, ts, eps)),
{
    reveal_strlit(")");
    reveal_strlit(" { ");
    reveal_strlit(") { ");
    assert(")"@ + " { "@ =~= ") { "@);
    let t = expr_text(c, ts, eps);
    if ts {
        assert(open + t + ")"@ + " { "@ =~= word + (" "@ + ("("@ + t + ") { "@)));
    } else {
        assert(spaced + t + " { "@ =~= word + (" "@ + (t + " { "@)));
    }
}

proof fn lemma_shape_if(s: Stmt, ts: bool, eps: Seq<Seq<char>>)
    requires
        is_plain_stmt(s),
        s is If,
    ensures
        stmt_text(s, binder(ts), ts, eps) == head_word(s) + tail_text(s, ts, eps),
        tail_text(s, ts, eps).len() > 0,
        !is_wordy(tail_text(s, ts, eps)[0]),
{
    reveal_strlit("if (");
    reveal_strlit("if ");
    reveal_strlit("if");
    reveal_strlit("(");
    reveal_strlit(" ");
    reveal_strlit(" } else { ");
    reveal_strlit(" }");
    reveal_strlit(" else { ");
    assert("if ("@ =~= "if"@ + " "@ + "("@);
    assert("if "@ =~= "if"@ + " "@);
    assert(" } else { "@ =~= " }"@ + " else { "@);
    let cond = s->If_cond;
    lemma_guarded("if"@, "if ("@, "if "@, cond, ts, eps);
    let g = guard_text(cond, ts, eps);
    let a = block_text(s->If_then_body@, binder(ts), ts, eps);
    let b = block_text(s->If_else_body@, binder(ts), ts, eps);
    let h = "if"@ + (" "@ + g);
    if s->If_else_body@.len() == 0 {
        assert(stmt_text(s, binder(ts), ts, eps) == h + a + " }"@);
        assert(h + a + " }"@ =~= "if"@ + (" "@ + g + a + " }"@ + Seq::<char>::empty()));
    } else {
        assert(stmt_text(s, binder(ts), ts, eps) == h + a + " } else { "@ + b + " }"@);
        assert(h + a + " } else { "@ + b + " }"@ =~= "if"@ + (" "@ + g + a + " }"@ + (" else { "@ + b
            + " }"@)));
    }
    assert(tail_text(s, ts, eps)[0] == ' ');
}

proof fn lemma_shape_while(s: Stmt, ts: bool, eps: Seq<Seq<char>>)
    requires
        is_plain_stmt(s),
        s is While,
    ensures
        stmt_text(s, binder(ts), ts, eps) == head_word(s) + tail_text(s, ts, eps),
        tail_text(s, ts, eps).len() > 0,
        !is_wordy(tail_text(s, ts, eps)[0]),
{
    reveal_strlit("while (");
    reveal_strlit("while ");
    reveal_strlit("while");
    reveal_strlit("(");
    reveal_strlit(" ");
    assert("while ("@ =~= "while"@ + " "@ + "("@);
    assert("while "@ =~= "while"@ + " "@);
    let cond = s->While_cond;
    lemma_guarded("while"@, "while ("@, "while "@, cond, ts, eps);
    let g = guard_text(cond, ts, eps);
    let a = block_text(s->While_body@, binder(ts), ts, eps);
    let h = "while"@ + (" "@ + g);
    assert(stmt_text(s, binder(ts), ts, eps) == h + a + " }"@);
    assert(h + a + " }"@ =~= "while"@ + (" "@ + g + a + " }"@));
    assert(tail_text(s, ts, eps)[0] == ' ');
}

proof fn lemma_shape_jump(s: Stmt, ts: bool, eps: Seq<Seq<char>>)
    requires
        is_plain_stmt(s),
        s is Break || s is Continue,
    ensures
        stmt_text(s, binder(ts), ts, eps) == head_word(s) + tail_text(s, ts, eps),
        tail_text(s, ts, eps).len() > 0,
        !is_wordy(tail_text(s, ts, eps)[0]),
{
    reveal_strlit("break;");
    reveal_strlit("break");
    reveal_strlit("continue;");
    reveal_strlit("continue");
    reveal_strlit(";");
    assert("break;"@ =~= "break"@ + ";"@);
    assert("continue;"@ =~= "continue"@ + ";"@);
}

proof fn lemma_shape(s: Stmt, ts: bool, eps: Seq<Seq<char>>)
    requires
        is_plain_stmt(s),
        !(s is Expr) && !(s is For),
    ensures
        stmt_text(s, binder(ts), ts, eps) == head_word(s) + tail_text(s, ts, eps),
        tail_text(s, ts, eps).len() > 0,
        !is_wordy(tail_text(s, ts, eps)[0]),
{
    match s {
        Stmt::Let { .. } => lemma_shape_let(s, ts, eps),
        Stmt::Assign { .. } => lemma_shape_assign(s, ts, eps),
        Stmt::Return(_) => lemma_shape_return(s, ts, eps),
        Stmt::If { .. } => lemma_shape_if(s, ts, eps),
        Stmt::While { .. } => lemma_shape_while(s, ts, eps),
        _ => lemma_shape_jump(s, ts, eps),
    }
}

/// What stands behind the name in a call that is a statement.
spec fn call_rest(e: Expr, ts: bool, eps: Seq<Seq<char>>) -> Seq<char> {
    "("@ + join_text(exprs_text(e->Call_args@, e->Call_args@.len() as int, ts, eps), ", "@) + ")"@ + ";"@
}

proof fn lemma_call_opens(s: Stmt, ts: bool, eps: Seq<Seq<char>>)
    requires
        is_plain_stmt(s),
        s is Expr,
    ensures
        stmt_text(s, binder(ts), ts, eps) == s->Expr_0->Call_callee@ + call_rest(s->Expr_0, ts, eps),
        call_rest(s->Expr_0, ts, eps).len() > 0,
        call_rest(s->Expr_0, ts, eps)[0] == '(',
{
    reveal_strlit("(");
    let e = s->Expr_0;
    lemma_user_call(e, ts, eps);
    let c = e->Call_callee@;
    let body = join_text(exprs_text(e->Call_args@, e->Call_args@.len() as int, ts, eps), ", "@);
    assert(c + "("@ + body + ")"@ + ";"@ =~= c + ("("@ + body + ")"@ + ";"@));
}

proof fn lemma_opens(s: Stmt, ts: bool, eps: Seq<Seq<char>>)
    requires
        is_plain_stmt(s),
    ensures
        opens(stmt_text(s, binder(ts), ts, eps), head_word(s)),
{
    lemma_keywords();
    match s {
        Stmt::Expr(e) => {
            lemma_call_opens(s, ts, eps);
            lemma_opens_with(e->Call_callee@, call_rest(e, ts, eps));
        },
        Stmt::For { .. } => {
            reveal_strlit("for ");
            reveal_strlit("for (let ");
            reveal_strlit("for (const ");
            reveal_strlit("for");
            let t = stmt_text(s, binder(ts), ts, eps);
            assert(t.len() > 3);
            assert(t[0] == 'f' && t[1] == 'o' && t[2] == 'r' && t[3] == ' ');
            assert(t.subrange(0, 3) =~= "for"@);
        },
        _ => {
            lemma_shape(s, ts, eps);
            lemma_opens_with(head_word(s), tail_text(s, ts, eps));
        },
    }
}

proof fn lemma_stmts_text(ss: Seq<Stmt>, n: int, ts: bool, eps: Seq<Seq<char>>)
    requires
        0 <= n <= ss.len(),
    ensures
        stmts_text(ss, n, binder(ts), ts, eps).len() == n,
        forall|k: int|
            0 <= k < n ==> #[trigger] stmts_text(ss, n, binder(ts), ts, eps)[k] == stmt_text(
                ss[k],
                binder(ts),
                ts,
                eps,
            ),
    decreases n,
{
    if n > 0 {
        lemma_stmts_text(ss, n - 1, ts, eps);
    }
}

proof fn lemma_codes_of(ss: Seq<Stmt>, n: int, ts: bool)
    requires
        0 <= n <= ss.len(),
    ensures
        codes_of(ss, n, ts).len() == n,
        forall|k: int| 0 <= k < n ==> #[trigger] codes_of(ss, n, ts)[k] == code_of(ss[k], ts),
    decreases n,
{
    if n > 0 {
        lemma_codes_of(ss, n - 1, ts);
    }
}

proof fn lemma_block(s: Seq<char>, i: int, ss: Seq<Stmt>, ts: bool, eps: Seq<Seq<char>>)
    requires
        is_plain_body(ss),
        stands(s, i, block_text(ss, binder(ts), ts, eps)),
        stands(s, i + block_text(ss, binder(ts), ts, eps).len(), " }"@),
    ensures
        read_block(s, i, ts) == Some(
            (
                codes_of(ss, ss.len() as int, ts),
                i + block_text(ss, binder(ts), ts, eps).len() + 2,
            ),
        ),
    decreases ss, ss.len() + 1,
{
    lemma_marks();
    let n = ss.len() as int;
    lemma_stmts_text(ss, n, ts, eps);
    lemma_codes_of(ss, n, ts);
    if n == 0 {
        assert(codes_of(ss, n, ts) =~= Seq::<Code>::empty());
    } else {
        let texts = stmts_text(ss, n, binder(ts), ts, eps);
        assert(texts.subrange(0, n) =~= texts);
        assert(codes_of(ss, n, ts).subrange(0, n) =~= codes_of(ss, n, ts));
        lemma_block_from(s, i, ss, 0, ts, eps);
    }
}

proof fn lemma_not_here(s: Seq<char>, i: int, t: Seq<char>, v: Seq<char>)
    requires
        opens(t, v),
        stands(s, i, t),
    ensures
        !stands(s, i, " }"@),
        i > 0 ==> !stands(s, i - 1, " else { "@),
        i > 0 ==> !stands(s, i - 1, " }"@),
{
    lemma_marks();
    lemma_stands_at(s, i, t, 0);
    assert(t.subrange(0, v.len() as int)[0] == t[0]);
    assert(is_wordy(v[0]));
    if stands(s, i, " }"@) {
        lemma_stands_at(s, i, " }"@, 0);
    }
    if i > 0 && stands(s, i - 1, " }"@) {
        lemma_stands_at(s, i - 1, " }"@, 1);
    }
    if i > 0 && stands(s, i - 1, " else { "@) {
        reveal_strlit(" else { ");
        reveal_strlit("else");
        let w = "else"@;
        assert(" else { "@ =~= " "@ + w + " { "@) by {
            reveal_strlit(" ");
            reveal_strlit(" { ");
        }
        lemma_split(s, i - 1, " "@ + w, " { "@);
        lemma_split(s, i - 1, " "@, w);
        lemma_stands_at(s, i + 4, " { "@, 0);
        assert(is_word(w));
        lemma_word_at(s, i, w);
        lemma_stands_at(s, i, t, v.len() as int);
        assert(t =~= v + t.subrange(v.len() as int, t.len() as int));
        lemma_split(s, i, v, t.subrange(v.len() as int, t.len() as int));
        lemma_word_at(s, i, v);
    }
}

proof fn lemma_block_from(s: Seq<char>, i: int, ss: Seq<Stmt>, k: int, ts: bool, eps: Seq<Seq<char>>)
    requires
        is_plain_body(ss),
        0 <= k < ss.len(),
        ({
            let t = join_text(
                stmts_text(ss, ss.len() as int, binder(ts), ts, eps).subrange(k, ss.len() as int),
                " "@,
            );
            stands(s, i, t) && stands(s, i + t.len(), " }"@)
        }),
    ensures
        ({
            let t = join_text(
                stmts_text(ss, ss.len() as int, binder(ts), ts, eps).subrange(k, ss.len() as int),
                " "@,
            );
            read_block(s, i, ts) == Some(
                (codes_of(ss, ss.len() as int, ts).subrange(k, ss.len() as int), i + t.len() + 2),
            )
        }),
    decreases ss, ss.len() - k,
{
    lemma_marks();
    let n = ss.len() as int;
    let texts = stmts_text(ss, n, binder(ts), ts, eps);
    let codes = codes_of(ss, n, ts);
    lemma_stmts_text(ss, n, ts, eps);
    lemma_codes_of(ss, n, ts);
    let part = texts.subrange(k, n);
    let t = join_text(part, " "@);
    let one = stmt_text(ss[k], binder(ts), ts, eps);
    lemma_opens(ss[k], ts, eps);
    if k == n - 1 {
        assert(part =~= seq![one]);
        assert(t == one);
        lemma_not_here(s, i, one, head_word(ss[k]));
        lemma_block_ends(s, i + one.len());
        lemma_code(s, i, ss[k], ts, eps);
        assert(codes.subrange(k, n) =~= seq![code_of(ss[k], ts)]);
    } else {
        let rest = texts.subrange(k + 1, n);
        assert(part =~= seq![one] + rest);
        lemma_join_one(one, rest, " "@);
        let u = join_text(rest, " "@);
        let next = stmt_text(ss[k + 1], binder(ts), ts, eps);
        lemma_opens(ss[k + 1], ts, eps);
        lemma_first_of_join(rest, " "@);
        assert(rest[0] == next);
        let j = i + one.len();
        lemma_statement_follows(s, i, one, next, u, head_word(ss[k]), head_word(ss[k + 1]));
        lemma_code(s, i, ss[k], ts, eps);
        lemma_block_from(s, j + 1, ss, k + 1, ts, eps);
        assert(codes.subrange(k, n) =~= seq![code_of(ss[k], ts)] + codes.subrange(k + 1, n));
    }
}

proof fn lemma_block_ends(s: Seq<char>, i: int)
    requires
        stands(s, i, " }"@),
    ensures
        !stands(s, i, " else { "@),
{
    lemma_marks();
    lemma_stands_at(s, i, " }"@, 1);
    if stands(s, i, " else { "@) {
        lemma_stands_at(s, i, " else { "@, 1);
    }
}

proof fn lemma_statement_follows(
    s: Seq<char>,
    i: int,
    one: Seq<char>,
    next: Seq<char>,
    u: Seq<char>,
    v: Seq<char>,
    w: Seq<char>,
)
    requires
        stands(s, i, one + " "@ + u),
        opens(one, v),
        opens(next, w),
        next.len() <= u.len(),
        u.subrange(0, next.len() as int) == next,
    ensures
        stands(s, i, one),
        !stands(s, i, " }"@),
        stands(s, i + one.len(), " "@),
        !stands(s, i + one.len(), " }"@),
        !stands(s, i + one.len(), " else { "@),
        stands(s, i + one.len() + 1, u),
        (one + " "@ + u).len() == one.len() + 1 + u.len(),
        i + one.len() + 1 <= s.len(),
{
    lemma_marks();
    lemma_split(s, i, one + " "@, u);
    lemma_split(s, i, one, " "@);
    let j = i + one.len();
    lemma_not_here(s, i, one, v);
    let more = u.subrange(next.len() as int, u.len() as int);
    assert(u =~= next + more);
    lemma_split(s, j + 1, next, more);
    lemma_not_here(s, j + 1, next, w);
}

proof fn lemma_first_of_join(parts: Seq<Seq<char>>, by: Seq<char>)
    requires
        parts.len() > 0,
    ensures
        parts[0].len() <= join_text(parts, by).len(),
        join_text(parts, by).subrange(0, parts[0].len() as int) == parts[0],
{
    let first = parts[0];
    let rest = parts.subrange(1, parts.len() as int);
    assert(parts =~= seq![first] + rest);
    if rest.len() > 0 {
        lemma_join_one(first, rest, by);
    } else {
        assert(join_text(parts, by) == first);
    }
    assert(join_text(parts, by).subrange(0, first.len() as int) =~= first);
}

proof fn lemma_head(s: Seq<char>, i: int, v: Seq<char>, rest: Seq<char>)
    requires
        is_word(v),
        rest.len() > 0,
        !is_wordy(rest[0]),
        stands(s, i, v + rest),
    ensures
        word_end(s, i) == i + v.len(),
        word_at(s, i) == v,
        stands(s, i + v.len(), rest),
        s[i + v.len()] == rest[0],
        i < i + v.len() < s.len(),
{
    lemma_split(s, i, v, rest);
    lemma_stands_at(s, i + v.len(), rest, 0);
    lemma_word_at(s, i, v);
}

proof fn lemma_code_let(s: Seq<char>, i: int, st: Stmt, ts: bool, eps: Seq<Seq<char>>)
    requires
        is_plain_stmt(st),
        st is Let,
        stands(s, i, stmt_text(st, binder(ts), ts, eps)),
    ensures
        read_stmt(s, i, ts) == Some((code_of(st, ts), i + stmt_text(st, binder(ts), ts, eps).len())),
{
    lemma_keywords();
    lemma_marks();
    lemma_shape(st, ts, eps);
    lemma_head(s, i, head_word(st), tail_text(st, ts, eps));
    let j = i + head_word(st).len();
    let name = st->Let_name@;
    let value = st->Let_value;
    let sep = if ts {
        " "@
    } else {
        " mut "@
    };
    let t = expr_text(value, ts, eps);
    lemma_split(s, j, sep + name + " = "@ + t, ";"@);
    lemma_split(s, j, sep + name + " = "@, t);
    lemma_split(s, j, sep + name, " = "@);
    lemma_split(s, j, sep, name);
    let k = j + sep.len();
    let n = k + name.len();
    lemma_stands_at(s, n, " = "@, 0);
    lemma_word_at(s, k, name);
    lemma_until(s, n + 3, value, ts, eps, ";"@);
}

proof fn lemma_code_assign(s: Seq<char>, i: int, st: Stmt, ts: bool, eps: Seq<Seq<char>>)
    requires
        is_plain_stmt(st),
        st is Assign,
        stands(s, i, stmt_text(st, binder(ts), ts, eps)),
    ensures
        read_stmt(s, i, ts) == Some((code_of(st, ts), i + stmt_text(st, binder(ts), ts, eps).len())),
{
    lemma_keywords();
    lemma_marks();
    lemma_shape(st, ts, eps);
    lemma_head(s, i, head_word(st), tail_text(st, ts, eps));
    let j = i + head_word(st).len();
    let value = st->Assign_value;
    let t = expr_text(value, ts, eps);
    lemma_split(s, j, " = "@ + t, ";"@);
    lemma_split(s, j, " = "@, t);
    lemma_until(s, j + 3, value, ts, eps, ";"@);
}

proof fn lemma_code_return(s: Seq<char>, i: int, st: Stmt, ts: bool, eps: Seq<Seq<char>>)
    requires
        is_plain_stmt(st),
        st is Return,
        stands(s, i, stmt_text(st, binder(ts), ts, eps)),
    ensures
        read_stmt(s, i, ts) == Some((code_of(st, ts), i + stmt_text(st, binder(ts), ts, eps).len())),
{
    lemma_keywords();
    lemma_marks();
    lemma_shape(st, ts, eps);
    lemma_head(s, i, head_word(st), tail_text(st, ts, eps));
    let j = i + head_word(st).len();
    let e = st->Return_0;
    let t = expr_text(e, ts, eps);
    lemma_split(s, j, " "@ + t, ";"@);
    lemma_split(s, j, " "@, t);
    lemma_until(s, j + 1, e, ts, eps, ";"@);
}

proof fn lemma_code_call(s: Seq<char>, i: int, st: Stmt, ts: bool, eps: Seq<Seq<char>>)
    requires
        is_plain_stmt(st),
        st is Expr,
        stands(s, i, stmt_text(st, binder(ts), ts, eps)),
    ensures
        read_stmt(s, i, ts) == Some((code_of(st, ts), i + stmt_text(st, binder(ts), ts, eps).len())),
{
    lemma_keywords();
    lemma_marks();
    let e = st->Expr_0;
    let t = expr_text(e, ts, eps);
    let c = e->Call_callee@;
    lemma_call_opens(st, ts, eps);
    lemma_head(s, i, c, call_rest(e, ts, eps));
    assert(stmt_text(st, binder(ts), ts, eps) == t + ";"@);
    lemma_split(s, i, t, ";"@);
    lemma_until(s, i, e, ts, eps, ";"@);
    if stands(s, i + c.len(), " = "@) {
        lemma_stands_at(s, i + c.len(), " = "@, 0);
    }
}

proof fn lemma_code_while(s: Seq<char>, i: int, st: Stmt, ts: bool, eps: Seq<Seq<char>>)
    requires
        is_plain_stmt(st),
        st is While,
        stands(s, i, stmt_text(st, binder(ts), ts, eps)),
    ensures
        read_stmt(s, i, ts) == Some((code_of(st, ts), i + stmt_text(st, binder(ts), ts, eps).len())),
    decreases st, 0int,
{
    lemma_keywords();
    lemma_marks();
    lemma_shape(st, ts, eps);
    lemma_head(s, i, head_word(st), tail_text(st, ts, eps));
    let j = i + head_word(st).len();
    let cond = st->While_cond;
    let body = st->While_body@;
    let g = guard_text(cond, ts, eps);
    let b = block_text(body, binder(ts), ts, eps);
    lemma_split(s, j, " "@ + g + b, " }"@);
    lemma_split(s, j, " "@ + g, b);
    lemma_split(s, j, " "@, g);
    lemma_condition(s, j + 1, cond, ts, eps);
    lemma_block(s, j + 1 + g.len(), body, ts, eps);
}

proof fn lemma_code_jump(s: Seq<char>, i: int, st: Stmt, ts: bool, eps: Seq<Seq<char>>)
    requires
        is_plain_stmt(st),
        st is Break || st is Continue,
        stands(s, i, stmt_text(st, binder(ts), ts, eps)),
    ensures
        read_stmt(s, i, ts) == Some((code_of(st, ts), i + stmt_text(st, binder(ts), ts, eps).len())),
{
    lemma_keywords();
    lemma_marks();
    lemma_shape(st, ts, eps);
    lemma_head(s, i, head_word(st), tail_text(st, ts, eps));
    let j = i + head_word(st).len();
}

proof fn lemma_code(s: Seq<char>, i: int, st: Stmt, ts: bool, eps: Seq<Seq<char>>)
    requires
        is_plain_stmt(st),
        stands(s, i, stmt_text(st, binder(ts), ts, eps)),
        !stands(s, i + stmt_text(st, binder(ts), ts, eps).len(), " else { "@),
    ensures
        read_stmt(s, i, ts) == Some((code_of(st, ts), i + stmt_text(st, binder(ts), ts, eps).len())),
    decreases st, 2int,
{
    match st {
        Stmt::Let { .. } => lemma_code_let(s, i, st, ts, eps),
        Stmt::Assign { .. } => lemma_code_assign(s, i, st, ts, eps),
        Stmt::Return(_) => lemma_code_return(s, i, st, ts, eps),
        Stmt::Expr(_) => lemma_code_call(s, i, st, ts, eps),
        Stmt::If { .. } => lemma_if(s, i, st, ts, eps),
        Stmt::While { .. } => lemma_code_while(s, i, st, ts, eps),
        Stmt::For { .. } => lemma_for(s, i, st, ts, eps),
        _ => lemma_code_jump(s, i, st, ts, eps),
    }
}

proof fn lemma_if(s: Seq<char>, i: int, st: Stmt, ts: bool, eps: Seq<Seq<char>>)
    requires
        is_plain_stmt(st),
        st is If,
        stands(s, i, stmt_text(st, binder(ts), ts, eps)),
        !stands(s, i + stmt_text(st, binder(ts), ts, eps).len(), " else { "@),
    ensures
        read_stmt(s, i, ts) == Some((code_of(st, ts), i + stmt_text(st, binder(ts), ts, eps).len())),
    decreases st, 0int,
{
    lemma_keywords();
    lemma_marks();
    let cond = st->If_cond;
    let a = st->If_then_body@;
    let b = st->If_else_body@;
    let rest = tail_text(st, ts, eps);
    lemma_shape(st, ts, eps);
    lemma_head(s, i, "if"@, rest);
    let j = i + 2;
    let g = guard_text(cond, ts, eps);
    let x = block_text(a, binder(ts), ts, eps);
    let y = block_text(b, binder(ts), ts, eps);
    let last = if b.len() == 0 {
        Seq::empty()
    } else {
        " else { "@ + y + " }"@
    };
    lemma_split(s, j, " "@ + g + x + " }"@, last);
    lemma_split(s, j, " "@ + g + x, " }"@);
    lemma_split(s, j, " "@ + g, x);
    lemma_split(s, j, " "@, g);
    let k = j + 1 + g.len();
    let m = k + x.len() + 2;
    lemma_condition(s, j + 1, cond, ts, eps);
    lemma_block(s, k, a, ts, eps);
    if b.len() == 0 {
        assert(codes_of(b, 0, ts) =~= Seq::<Code>::empty());
    } else {
        lemma_split(s, m, " else { "@ + y, " }"@);
        lemma_split(s, m, " else { "@, y);
        lemma_block(s, m + 8, b, ts, eps);
    }
}

proof fn lemma_for(s: Seq<char>, i: int, st: Stmt, ts: bool, eps: Seq<Seq<char>>)
    requires
        is_plain_stmt(st),
        st is For,
        stands(s, i, stmt_text(st, binder(ts), ts, eps)),
    ensures
        read_stmt(s, i, ts) == Some((code_of(st, ts), i + stmt_text(st, binder(ts), ts, eps).len())),
    decreases st, 1int,
{
    lemma_keywords();
    let text = stmt_text(st, binder(ts), ts, eps);
    lemma_opens(st, ts, eps);
    let more = text.subrange(3, text.len() as int);
    assert(text =~= "for"@ + more);
    assert(more[0] == text[3]);
    lemma_head(s, i, "for"@, more);
    assert(read_stmt(s, i, ts) == read_for(s, i, ts));
    if ts {
        if st->For_iter is Range {
            lemma_ts_count(s, i, st, eps);
        } else {
            lemma_ts_each(s, i, st, eps);
        }
    } else {
        if st->For_iter is Range {
            lemma_rust_count(s, i, st, eps);
        } else {
            lemma_rust_each(s, i, st, eps);
        }
    }
}

proof fn lemma_rust_count(s: Seq<char>, i: int, st: Stmt, eps: Seq<Seq<char>>)
    requires
        is_plain_stmt(st),
        st is For,
        st->For_iter is Range,
        stands(s, i, stmt_text(st, binder(false), false, eps)),
    ensures
        read_for(s, i, false) == Some(
            (code_of(st, false), i + stmt_text(st, binder(false), false, eps).len()),
        ),
    decreases st, 0int,
{
    lemma_marks();
    reveal_strlit("for ");
    let v = st->For_var@;
    let from = *st->For_iter->Range_start;
    let to = *st->For_iter->Range_end;
    let body = st->For_body@;
    let a = expr_text(from, false, eps);
    let b = expr_text(to, false, eps);
    let x = block_text(body, binder(false), false, eps);
    let t1 = "for "@ + v;
    let t2 = t1 + " in "@;
    let t3 = t2 + a;
    let t4 = t3 + ".."@;
    let t5 = t4 + b;
    let t6 = t5 + " { "@;
    let t7 = t6 + x;
    assert(stmt_text(st, binder(false), false, eps) == t7 + " }"@);
    lemma_split(s, i, t7, " }"@);
    lemma_split(s, i, t6, x);
    lemma_split(s, i, t5, " { "@);
    lemma_split(s, i, t4, b);
    lemma_split(s, i, t3, ".."@);
    lemma_split(s, i, t2, a);
    lemma_split(s, i, t1, " in "@);
    lemma_split(s, i, "for "@, v);
    let n = i + 4 + v.len();
    lemma_stands_at(s, n, " in "@, 0);
    lemma_word_at(s, i + 4, v);
    lemma_until(s, n + 4, from, false, eps, ".."@);
    lemma_until(s, n + 4 + a.len() + 2, to, false, eps, " { "@);
    lemma_block(s, n + 4 + a.len() + 2 + b.len() + 3, body, false, eps);
}

proof fn lemma_rust_each(s: Seq<char>, i: int, st: Stmt, eps: Seq<Seq<char>>)
    requires
        is_plain_stmt(st),
        st is For,
        !(st->For_iter is Range),
        stands(s, i, stmt_text(st, binder(false), false, eps)),
    ensures
        read_for(s, i, false) == Some(
            (code_of(st, false), i + stmt_text(st, binder(false), false, eps).len()),
        ),
    decreases st, 0int,
{
    lemma_marks();
    lemma_keywords();
    reveal_strlit("for ");
    reveal_strlit(".clone() { ");
    let v = st->For_var@;
    let iter = st->For_iter;
    let body = st->For_body@;
    let a = expr_text(iter, false, eps);
    let x = block_text(body, binder(false), false, eps);
    let t1 = "for "@ + v;
    let t2 = t1 + " in "@;
    let t3 = t2 + a;
    let t4 = t3 + ".clone() { "@;
    let t5 = t4 + x;
    assert(stmt_text(st, binder(false), false, eps) == t5 + " }"@);
    lemma_split(s, i, t5, " }"@);
    lemma_split(s, i, t4, x);
    lemma_split(s, i, t3, ".clone() { "@);
    lemma_split(s, i, t2, a);
    lemma_split(s, i, t1, " in "@);
    lemma_split(s, i, "for "@, v);
    let n = i + 4 + v.len();
    lemma_stands_at(s, n, " in "@, 0);
    lemma_word_at(s, i + 4, v);
    let k = n + 4;
    let m = k + a.len();
    assert(".clone() { "@ =~= seq!['.'] + ("clone"@ + seq!['(', ')'] + " { "@)) by {
        reveal_strlit("clone");
        reveal_strlit(" { ");
    }
    lemma_split(s, m, seq!['.'], "clone"@ + seq!['(', ')'] + " { "@);
    lemma_split(s, m + 1, "clone"@ + seq!['(', ')'], " { "@);
    lemma_split(s, m + 1, "clone"@, seq!['(', ')']);
    lemma_stands_at(s, m, seq!['.'], 0);
    lemma_stands_at(s, m + 1, "clone"@, 0);
    lemma_stands_at(s, m + 6, seq!['(', ')'], 0);
    lemma_stands_at(s, m + 6, seq!['(', ')'], 1);
    lemma_stands_at(s, m + 8, " { "@, 0);
    lemma_word_at(s, m + 1, "clone"@);
    lemma_stands_at(s, k, a, 0);
    assert(is_wordy(a[0]) && !is_numeral(a[0]));
    lemma_word_at(s, k, a);
    let first = Tree::Name(a);
    let whole = Tree::Method(Box::new(first), "clone"@, Seq::empty());
    assert(read_first(s, k, false) == Some((first, m)));
    assert(read_list(s, m + 7, false, ')') == Some((Seq::<Tree>::empty(), m + 8)));
    assert(read_more(s, m + 8, false, whole) == Some((whole, m + 8)));
    assert(read_more(s, m, false, first) == Some((whole, m + 8)));
    assert(read(s, k, false) == Some((whole, m + 8)));
    if stands(s, m + 8, ".."@) {
        lemma_stands_at(s, m + 8, ".."@, 0);
    }
    lemma_block(s, m + 11, body, false, eps);
}

proof fn lemma_ts_each(s: Seq<char>, i: int, st: Stmt, eps: Seq<Seq<char>>)
    requires
        is_plain_stmt(st),
        st is For,
        !(st->For_iter is Range),
        stands(s, i, stmt_text(st, binder(true), true, eps)),
    ensures
        read_for(s, i, true) == Some(
            (code_of(st, true), i + stmt_text(st, binder(true), true, eps).len()),
        ),
    decreases st, 0int,
{
    lemma_marks();
    reveal_strlit("for (const ");
    let v = st->For_var@;
    let iter = st->For_iter;
    let body = st->For_body@;
    let a = expr_text(iter, true, eps);
    let x = block_text(body, binder(true), true, eps);
    let t1 = "for (const "@ + v;
    let t2 = t1 + " of "@;
    let t3 = t2 + a;
    let t4 = t3 + ") { "@;
    let t5 = t4 + x;
    assert(stmt_text(st, binder(true), true, eps) == t5 + " }"@);
    lemma_split(s, i, t5, " }"@);
    lemma_split(s, i, t4, x);
    lemma_split(s, i, t3, ") { "@);
    lemma_split(s, i, t2, a);
    lemma_split(s, i, t1, " of "@);
    lemma_split(s, i, "for (const "@, v);
    let n = i + 11 + v.len();
    lemma_stands_at(s, n, " of "@, 0);
    lemma_word_at(s, i + 11, v);
    lemma_until(s, n + 4, iter, true, eps, ") { "@);
    lemma_block(s, n + 4 + a.len() + 4, body, true, eps);
}

proof fn lemma_ts_count(s: Seq<char>, i: int, st: Stmt, eps: Seq<Seq<char>>)
    requires
        is_plain_stmt(st),
        st is For,
        st->For_iter is Range,
        stands(s, i, stmt_text(st, binder(true), true, eps)),
    ensures
        read_for(s, i, true) == Some(
            (code_of(st, true), i + stmt_text(st, binder(true), true, eps).len()),
        ),
    decreases st, 0int,
{
    lemma_marks();
    reveal_strlit("for (let ");
    reveal_strlit("for (const ");
    let v = st->For_var@;
    let from = *st->For_iter->Range_start;
    let to = *st->For_iter->Range_end;
    let body = st->For_body@;
    let a = expr_text(from, true, eps);
    let b = expr_text(to, true, eps);
    let x = block_text(body, binder(true), true, eps);
    let m1 = "; "@ + v + " < "@;
    let m2 = "; "@ + v + "++) { "@;
    let t1 = "for (let "@ + v;
    let t2 = t1 + " = "@;
    let t3 = t2 + a;
    let t4 = t3 + m1;
    let t5 = t4 + b;
    let t6 = t5 + m2;
    let t7 = t6 + x;
    assert(stmt_text(st, binder(true), true, eps) =~= t7 + " }"@);
    lemma_split(s, i, t7, " }"@);
    lemma_split(s, i, t6, x);
    lemma_split(s, i, t5, m2);
    lemma_split(s, i, t4, b);
    lemma_split(s, i, t3, m1);
    lemma_split(s, i, t2, a);
    lemma_split(s, i, t1, " = "@);
    lemma_split(s, i, "for (let "@, v);
    if stands(s, i, "for (const "@) {
        lemma_stands_at(s, i, "for (const "@, 5);
        lemma_stands_at(s, i, "for (let "@, 5);
    }
    let n = i + 9 + v.len();
    lemma_stands_at(s, n, " = "@, 0);
    lemma_word_at(s, i + 9, v);
    reveal_strlit("; ");
    assert(m1[0] == ';' && m2[0] == ';');
    lemma_until(s, n + 3, from, true, eps, m1);
    let k = n + 3 + a.len() + m1.len();
    lemma_until(s, k, to, true, eps, m2);
    lemma_block(s, k + b.len() + m2.len(), body, true, eps);
}

/// What is printed of a statement reads back, on either tier, as the statement that it was printed from:
/// what is bound to what, which body runs where a condition holds and which where it does not, from where
/// to where a loop counts.
pub proof fn law_printed_statement_reads_back(st: Stmt, ts: bool, eps: Seq<Seq<char>>)
    requires
        is_plain_stmt(st),
    ensures
        ({
            let t = stmt_text(st, binder(ts), ts, eps);
            read_stmt(t, 0, ts) == Some((code_of(st, ts), t.len() as int))
        }),
{
    let t = stmt_text(st, binder(ts), ts, eps);
    assert(t.subrange(0, t.len() as int) =~= t);
    lemma_marks();
    lemma_code(t, 0, st, ts, eps);
}

/// What is printed of a body, with its closing brace, reads back as its statements in their order.
pub proof fn law_printed_body_reads_back(ss: Seq<Stmt>, ts: bool, eps: Seq<Seq<char>>)
    requires
        is_plain_body(ss),
    ensures
        ({
            let t = block_text(ss, binder(ts), ts, eps) + " }"@;
            read_block(t, 0, ts) == Some((codes_of(ss, ss.len() as int, ts), t.len() as int))
        }),
{
    let b = block_text(ss, binder(ts), ts, eps);
    let t = b + " }"@;
    assert(t.subrange(0, t.len() as int) =~= t);
    lemma_split(t, 0, b, " }"@);
    lemma_marks();
    lemma_block(t, 0, ss, ts, eps);
}

/// The server's own printer of statements prints a plain one as the other does.
pub proof fn law_server_prints_plain_statements_alike(
    st: Stmt,
    ret: Option<String>,
    models: Seq<crate::ast::ModelNode>,
    enums: Seq<crate::ast::EnumNode>,
    eps: Seq<Seq<char>>,
)
    requires
        is_plain_stmt(st),
    ensures
        server_stmt_text(st, ret, models, enums, eps) == stmt_text(st, binder(false), false, eps),
{
}

/// Whether handler code prints a statement as the rest of the browser's code does: all its expressions are
/// printed so, and it is no transaction.
pub open spec fn is_shared_stmt(s: Stmt, eps: Seq<Seq<char>>) -> bool
    decreases s,
{
    match s {
        Stmt::Let { value, .. } => is_shared(value, eps),
        Stmt::Assign { value, .. } => is_shared(value, eps),
        Stmt::Return(e) => is_shared(e, eps),
        Stmt::Expr(e) => is_shared(e, eps),
        Stmt::Try { body, handler } => is_shared_body(body@, eps) && is_shared_body(handler@, eps),
        Stmt::If { cond, then_body, else_body } => is_shared(cond, eps) && is_shared_body(
            then_body@,
            eps,
        ) && is_shared_body(else_body@, eps),
        Stmt::For { iter, body, .. } => is_shared(iter, eps) && is_shared_body(body@, eps),
        Stmt::While { cond, body } => is_shared(cond, eps) && is_shared_body(body@, eps),
        Stmt::Match { scrutinee, arms } => is_shared(scrutinee, eps) && forall|i: int|
            0 <= i < arms@.len() ==> is_shared_body((#[trigger] arms@[i]).body@, eps),
        Stmt::Break | Stmt::Continue => true,
        Stmt::Transaction(_) => false,
    }
}

/// Whether handler code prints all statements of a body so.
pub open spec fn is_shared_body(ss: Seq<Stmt>, eps: Seq<Seq<char>>) -> bool
    decreases ss,
{
    forall|i: int| 0 <= i < ss.len() ==> is_shared_stmt(#[trigger] ss[i], eps)
}

proof fn lemma_shared_stmts(ss: Seq<Stmt>, n: int, screen: Seq<char>, eps: Seq<Seq<char>>)
    requires
        is_shared_body(ss, eps),
        n <= ss.len(),
    ensures
        h_stmts_text(ss, n, screen, Seq::empty()) == stmts_text(ss, n, "let"@, true, eps),
    decreases ss, n,
{
    if n > 0 {
        lemma_shared_stmts(ss, n - 1, screen, eps);
        law_handlers_print_statements_as_the_client_does(ss[n - 1], screen, eps);
    }
}

proof fn lemma_shared_block(ss: Seq<Stmt>, screen: Seq<char>, eps: Seq<Seq<char>>)
    requires
        is_shared_body(ss, eps),
    ensures
        h_block_text(ss, " "@, screen, Seq::empty()) == block_text(ss, "let"@, true, eps),
    decreases ss, ss.len() + 1,
{
    lemma_shared_stmts(ss, ss.len() as int, screen, eps);
}

proof fn lemma_shared_arms(arms: Seq<MatchArm>, n: int, screen: Seq<char>, eps: Seq<Seq<char>>)
    requires
        forall|i: int| 0 <= i < arms.len() ==> is_shared_body((#[trigger] arms[i]).body@, eps),
        n <= arms.len(),
    ensures
        h_arms_text(arms, n, screen, Seq::empty()) == arms_text(arms, n, "let"@, true, eps),
    decreases arms, n,
{
    if n > 0 {
        lemma_shared_arms(arms, n - 1, screen, eps);
        assert(decreases_to!(arms => arms[n - 1]));
        lemma_shared_block(arms[n - 1].body@, screen, eps);
    }
}

/// Handler code prints a statement on a screen without cells as the rest of the browser's code does.
pub proof fn law_handlers_print_statements_as_the_client_does(
    s: Stmt,
    screen: Seq<char>,
    eps: Seq<Seq<char>>,
)
    requires
        is_shared_stmt(s, eps),
    ensures
        h_stmt_text(s, screen, Seq::empty()) == stmt_text(s, "let"@, true, eps),
    decreases s, 1int,
{
    match s {
        Stmt::Let { name, value, .. } => {
            law_handlers_print_as_the_client_does(value, screen, eps);
            reveal_strlit("let ");
            reveal_strlit("let");
            reveal_strlit(" ");
            assert("let "@ =~= "let"@ + " "@);
        },
        Stmt::Assign { value, .. } => law_handlers_print_as_the_client_does(value, screen, eps),
        Stmt::Return(e) => law_handlers_print_as_the_client_does(e, screen, eps),
        Stmt::Expr(e) => law_handlers_print_as_the_client_does(e, screen, eps),
        Stmt::Try { body, handler } => {
            lemma_shared_block(body@, screen, eps);
            lemma_shared_block(handler@, screen, eps);
        },
        Stmt::If { cond, then_body, else_body } => {
            law_handlers_print_as_the_client_does(cond, screen, eps);
            lemma_shared_block(then_body@, screen, eps);
            lemma_shared_block(else_body@, screen, eps);
            reveal_strlit(")");
            reveal_strlit(" { ");
            reveal_strlit(") { ");
            assert(")"@ + " { "@ =~= ") { "@);
            let c = expr_text(cond, true, eps);
            let a = block_text(then_body@, "let"@, true, eps);
            assert("if ("@ + c + ") { "@ + a =~= "if ("@ + c + ")"@ + " { "@ + a);
        },
        Stmt::For { iter, body, .. } => {
            law_handlers_print_as_the_client_does(iter, screen, eps);
            lemma_shared_block(body@, screen, eps);
            if let Expr::Range { start, end } = iter {
                law_handlers_print_as_the_client_does(*start, screen, eps);
                law_handlers_print_as_the_client_does(*end, screen, eps);
            }
        },
        Stmt::While { cond, body } => {
            law_handlers_print_as_the_client_does(cond, screen, eps);
            lemma_shared_block(body@, screen, eps);
            reveal_strlit(")");
            reveal_strlit(" { ");
            reveal_strlit(") { ");
            assert(")"@ + " { "@ =~= ") { "@);
            let c = expr_text(cond, true, eps);
            let a = block_text(body@, "let"@, true, eps);
            assert("while ("@ + c + ") { "@ + a + " }"@ =~= "while ("@ + c + ")"@ + " { "@ + a + " }"@);
        },
        Stmt::Match { scrutinee, arms } => {
            law_handlers_print_as_the_client_does(scrutinee, screen, eps);
            lemma_shared_arms(arms@, arms@.len() as int, screen, eps);
        },
        _ => {},
    }
}

} // verus!
