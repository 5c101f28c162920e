//! Generated code means what it was generated from: what is printed reads back as the same expression, and
//! comes to what the interpreter comes to.
use vstd::prelude::*;
use vstd::string::*;

use crate::arith::law_small_integers_are_exact;
use crate::ast::{BinOp, Expr, UnOp};
use crate::builtin::operated;
use crate::emit::{
    arg_text, binop_text, builtin_method_text, call_text, expr_text, exprs_text, fields_text, method_text,
    unop_text, FieldStyle,
};
use crate::emit_handler::{
    cell_text, h_arg_text, h_call_text, h_expr_text, h_exprs_text, h_fields_text, h_method_text,
};
use crate::interp::{eval_at, ran, Env, TrackView, World};
use crate::num::nat_text;
use crate::reader::{
    ends, exactly, is_common, is_exact, is_numeral, is_word, is_wordy, number_of, of_integers, of_truths,
    read, read_first, read_inner, read_list, read_more, stands, value_of, word_end, Tree,
};
use crate::run_laws::lemma_join_one;
use crate::text::{after_prefix, has_prefix, join_text};
use crate::value::ValueView;

verus! {

/// How an operator is written in both languages.
pub open spec fn symbol(op: BinOp) -> Seq<char> {
    match op {
        BinOp::Add => seq!['+'],
        BinOp::Sub => seq!['-'],
        BinOp::Mul => seq!['*'],
        BinOp::Div => seq!['/'],
        BinOp::Eq => seq!['=', '='],
        BinOp::NotEq => seq!['!', '='],
        BinOp::Lt => seq!['<'],
        BinOp::Gt => seq!['>'],
        BinOp::LtEq => seq!['<', '='],
        BinOp::GtEq => seq!['>', '='],
        BinOp::And => seq!['&', '&'],
        BinOp::Or => seq!['|', '|'],
    }
}

/// Whether a name is one of the builtins that are not written as a call of their name.
pub open spec fn is_special(callee: Seq<char>) -> bool {
    ||| callee == "now"@
    ||| callee == "decimal"@
    ||| callee == "__list_contains"@
    ||| callee == "__str_concat"@
    ||| callee == "navigate"@
    ||| callee == "toggle_theme"@
    ||| callee == "abs"@
    ||| callee == "min"@
    ||| callee == "max"@
    ||| has_prefix(callee, "__dec_"@)
}

/// Whether a name can stand in generated code as it is.
pub open spec fn is_free_name(v: Seq<char>) -> bool {
    is_word(v) && v != seq!['i', 'f'] && v != seq!['t', 'r', 'u', 'e'] && v != seq![
        'f',
        'a',
        'l',
        's',
        'e',
    ]
}

/// Whether an expression is made of integers, truths, names, operators, choices, lists and calls of
/// functions, and no minus stands before another.
pub open spec fn is_plain(e: Expr) -> bool
    decreases e,
{
    match e {
        Expr::Int(_) | Expr::Bool(_) => true,
        Expr::Ident(v) => is_free_name(v@),
        Expr::Unary { op, expr } => is_plain(*expr) && (op == UnOp::Neg ==> !starts_with_minus(*expr)),
        Expr::Binary { left, right, .. } => is_plain(*left) && is_plain(*right),
        Expr::Declassify(inner) => is_plain(*inner),
        Expr::Raw(inner) => is_plain(*inner),
        Expr::Ternary { cond, yes, otherwise } => is_plain(*cond) && is_plain(*yes) && is_plain(
            *otherwise,
        ),
        Expr::ListLit(items) => forall|i: int| 0 <= i < items@.len() ==> is_plain(#[trigger] items@[i]),
        Expr::Call { callee, args } => is_free_name(callee@) && !is_special(callee@) && forall|i: int|
            0 <= i < args@.len() ==> is_plain(#[trigger] args@[i]),
        _ => false,
    }
}

/// Whether the text of an expression starts with a minus.
pub open spec fn starts_with_minus(e: Expr) -> bool
    decreases e,
{
    match e {
        Expr::Int(n) => n < 0,
        Expr::Unary { op, .. } => op == UnOp::Neg,
        Expr::Declassify(inner) => starts_with_minus(*inner),
        Expr::Raw(inner) => starts_with_minus(*inner),
        _ => false,
    }
}

/// What an expression is in either language.
pub open spec fn tree_of(e: Expr) -> Tree
    decreases e,
{
    match e {
        Expr::Int(n) => if n < 0 {
            Tree::Neg(Box::new(Tree::Num((-(n as int)) as nat)))
        } else {
            Tree::Num(n as nat)
        },
        Expr::Bool(b) => Tree::Name(
            if b {
                seq!['t', 'r', 'u', 'e']
            } else {
                seq!['f', 'a', 'l', 's', 'e']
            },
        ),
        Expr::Ident(v) => Tree::Name(v@),
        Expr::Unary { op, expr } => if op == UnOp::Neg {
            Tree::Neg(Box::new(tree_of(*expr)))
        } else {
            Tree::Not(Box::new(tree_of(*expr)))
        },
        Expr::Binary { op, left, right } => Tree::Op(
            symbol(op),
            Box::new(tree_of(*left)),
            Box::new(tree_of(*right)),
        ),
        Expr::Declassify(inner) => tree_of(*inner),
        Expr::Raw(inner) => tree_of(*inner),
        Expr::Ternary { cond, yes, otherwise } => Tree::Choice(
            Box::new(tree_of(*cond)),
            Box::new(tree_of(*yes)),
            Box::new(tree_of(*otherwise)),
        ),
        Expr::ListLit(items) => Tree::List(trees_of(items@, items@.len() as int)),
        Expr::Call { callee, args } => Tree::Call(callee@, trees_of(args@, args@.len() as int)),
        _ => Tree::Name(Seq::empty()),
    }
}

/// What the first `n` expressions are in either language.
pub open spec fn trees_of(es: Seq<Expr>, n: int) -> Seq<Tree>
    decreases es, n,
{
    if n <= 0 || n > es.len() {
        Seq::empty()
    } else {
        trees_of(es, n - 1).push(tree_of(es[n - 1]))
    }
}

pub(crate) proof fn lemma_split(s: Seq<char>, i: int, a: Seq<char>, b: Seq<char>)
    requires
        stands(s, i, a + b),
    ensures
        stands(s, i, a),
        stands(s, i + a.len(), b),
{
    let t = a + b;
    assert(s.subrange(i, i + a.len()) =~= a) by {
        assert forall|k: int| 0 <= k < a.len() implies s[i + k] == a[k] by {
            assert(s.subrange(i, i + t.len())[k] == t[k]);
        }
    }
    assert(s.subrange(i + a.len(), i + t.len()) =~= b) by {
        assert forall|k: int| 0 <= k < b.len() implies s[i + a.len() + k] == b[k] by {
            assert(s.subrange(i, i + t.len())[a.len() + k] == t[a.len() + k]);
        }
    }
}

pub(crate) proof fn lemma_stands_at(s: Seq<char>, i: int, t: Seq<char>, k: int)
    requires
        stands(s, i, t),
        0 <= k < t.len(),
    ensures
        s[i + k] == t[k],
{
    assert(s.subrange(i, i + t.len())[k] == t[k]);
}

pub(crate) proof fn lemma_word_end(s: Seq<char>, i: int, v: Seq<char>)
    requires
        stands(s, i, v),
        forall|k: int| 0 <= k < v.len() ==> is_wordy(#[trigger] v[k]),
        i + v.len() >= s.len() || !is_wordy(s[i + v.len()]),
    ensures
        word_end(s, i) == i + v.len(),
    decreases v.len(),
{
    if v.len() > 0 {
        lemma_stands_at(s, i, v, 0);
        let rest = v.subrange(1, v.len() as int);
        assert(v =~= seq![v[0]] + rest);
        lemma_split(s, i, seq![v[0]], rest);
        lemma_word_end(s, i + 1, rest);
    }
}

proof fn lemma_number(n: nat)
    ensures
        number_of(nat_text(n)) == n,
        nat_text(n).len() > 0,
        forall|k: int| 0 <= k < nat_text(n).len() ==> is_numeral(#[trigger] nat_text(n)[k]),
    decreases n,
{
    let t = nat_text(n);
    if n < 10 {
        assert(t.drop_last() =~= Seq::<char>::empty());
        assert(number_of(t.drop_last()) == 0);
    } else {
        lemma_number(n / 10);
        assert(t.drop_last() =~= nat_text(n / 10));
        assert forall|k: int| 0 <= k < t.len() implies is_numeral(#[trigger] t[k]) by {
            if k < t.len() - 1 {
                assert(t[k] == nat_text(n / 10)[k]);
            }
        }
    }
}

proof fn lemma_symbol(op: BinOp)
    ensures
        binop_text(op) == symbol(op),
        symbol(op).len() == 1 || symbol(op).len() == 2,
        symbol(op).len() == 2 ==> symbol(op)[1] != ' ',
        symbol(op) != seq!['?'],
{
    reveal_strlit("+");
    reveal_strlit("-");
    reveal_strlit("*");
    reveal_strlit("/");
    reveal_strlit("==");
    reveal_strlit("!=");
    reveal_strlit("<");
    reveal_strlit(">");
    reveal_strlit("<=");
    reveal_strlit(">=");
    reveal_strlit("&&");
    reveal_strlit("||");
    assert(binop_text(op) =~= symbol(op));
    if symbol(op) == seq!['?'] {
        assert(symbol(op)[0] == '?');
    }
}

/// What the text of a plain expression starts with: a mark that starts one, or a name that is not `if` and
/// has no space behind it in the text.
pub(crate) open spec fn starts_well(t: Seq<char>) -> bool {
    &&& t.len() > 0
    &&& t[0] != ')' && t[0] != ']' && t[0] != ' '
    &&& t.len() >= 2 ==> !(t[0] == 'i' && t[1] == 'f' && (t.len() == 2 || t[2] == ' '))
}

proof fn lemma_starts_word(v: Seq<char>, rest: Seq<char>)
    requires
        is_free_name(v),
        rest.len() > 0 ==> rest[0] == '(',
    ensures
        starts_well(v + rest),
{
    let t = v + rest;
    assert(t[0] == v[0]);
    assert(is_wordy(v[0]));
    if v.len() >= 2 {
        assert(t[1] == v[1]);
        if v.len() == 2 {
            if v[0] == 'i' && v[1] == 'f' {
                assert(v =~= seq!['i', 'f']);
            }
            if rest.len() > 0 {
                assert(t[2] == '(');
            }
        } else {
            assert(t[2] == v[2]);
            assert(is_wordy(v[2]));
        }
    } else if rest.len() > 0 {
        assert(t[1] == '(');
    }
}

pub(crate) proof fn lemma_starts(e: Expr, ts: bool, eps: Seq<Seq<char>>)
    requires
        is_plain(e),
    ensures
        starts_well(expr_text(e, ts, eps)),
    decreases e,
{
    reveal_strlit("true");
    reveal_strlit("false");
    reveal_strlit("-");
    reveal_strlit("!");
    reveal_strlit("(");
    reveal_strlit("[");
    reveal_strlit("vec![");
    reveal_strlit("(if ");
    let t = expr_text(e, ts, eps);
    match e {
        Expr::Int(n) => {
            if n < 0 {
                assert(t[0] == '-');
            } else {
                lemma_number(n as nat);
                assert(is_numeral(t[0]));
            }
        },
        Expr::Bool(_) => {},
        Expr::Ident(v) => {
            lemma_starts_word(v@, Seq::empty());
            assert(v@ + Seq::<char>::empty() =~= v@);
        },
        Expr::Unary { op, .. } => {
            assert(t[0] == unop_text(op)[0]);
        },
        Expr::Binary { .. } => {
            assert(t[0] == '(');
        },
        Expr::Declassify(inner) => lemma_starts(*inner, ts, eps),
        Expr::Raw(inner) => lemma_starts(*inner, ts, eps),
        Expr::Ternary { .. } => {
            assert(t[0] == '(');
        },
        Expr::ListLit(_) => {
            if ts {
                assert(t[0] == '[');
            } else {
                assert(t[0] == 'v');
            }
        },
        Expr::Call { callee, args } => {
            lemma_user_call(e, ts, eps);
            let a = join_text(exprs_text(args@, args@.len() as int, ts, eps), ", "@);
            reveal_strlit(")");
            let rest = "("@ + a + ")"@;
            assert(rest[0] == '(');
            lemma_starts_word(callee@, rest);
            assert(t =~= callee@ + rest);
        },
        _ => {},
    }
}

pub(crate) proof fn lemma_user_call(e: Expr, ts: bool, eps: Seq<Seq<char>>)
    requires
        is_plain(e),
        e is Call,
    ensures
        expr_text(e, ts, eps) == e->Call_callee@ + "("@ + join_text(
            exprs_text(e->Call_args@, e->Call_args@.len() as int, ts, eps),
            ", "@,
        ) + ")"@,
{
    let c = e->Call_callee@;
    assert(after_prefix(c, "__dec_"@) is None);
    assert(crate::emit::call_text(e, ts, eps) == expr_text(e, ts, eps));
}

pub(crate) proof fn lemma_read_name(s: Seq<char>, i: int, v: Seq<char>, ts: bool)
    requires
        is_word(v),
        stands(s, i, v),
        ends(s, i + v.len()),
        v != seq!['v', 'e', 'c'] || ends_list(s, i + v.len()),
    ensures
        read(s, i, ts) == Some((Tree::Name(v), i + v.len())),
{
    lemma_stands_at(s, i, v, 0);
    assert(is_wordy(v[0]));
    lemma_word_end(s, i, v);
    let j = i + v.len();
    assert(read_first(s, i, ts) == Some((Tree::Name(v), j)));
    assert(read_more(s, j, ts, Tree::Name(v)) == Some((Tree::Name(v), j)));
}

/// Whether no list starts at an index.
pub(crate) open spec fn ends_list(s: Seq<char>, i: int) -> bool {
    !(i + 1 < s.len() && s[i] == '!' && s[i + 1] == '[')
}

proof fn lemma_read_number(s: Seq<char>, i: int, n: nat, ts: bool)
    requires
        stands(s, i, nat_text(n)),
        ends(s, i + nat_text(n).len()),
    ensures
        read(s, i, ts) == Some((Tree::Num(n), i + nat_text(n).len())),
{
    let t = nat_text(n);
    lemma_number(n);
    lemma_stands_at(s, i, t, 0);
    assert(is_numeral(t[0]));
    assert forall|k: int| 0 <= k < t.len() implies is_wordy(#[trigger] t[k]) by {
        assert(is_numeral(t[k]));
    }
    lemma_word_end(s, i, t);
    let j = i + t.len();
    assert(read_first(s, i, ts) == Some((Tree::Num(n), j)));
    assert(read_more(s, j, ts, Tree::Num(n)) == Some((Tree::Num(n), j)));
}

/// Whether the text behind an index ends an expression for good: it neither goes on with it nor starts a
/// list behind a name.
pub(crate) open spec fn closes_here(s: Seq<char>, i: int) -> bool {
    ends(s, i) && (i < s.len() ==> s[i] != '!')
}

pub(crate) proof fn lemma_reads(s: Seq<char>, i: int, e: Expr, ts: bool, eps: Seq<Seq<char>>)
    requires
        is_plain(e),
        stands(s, i, expr_text(e, ts, eps)),
        closes_here(s, i + expr_text(e, ts, eps).len()),
    ensures
        read(s, i, ts) == Some((tree_of(e), i + expr_text(e, ts, eps).len())),
    decreases e, 1int,
{
    let t = expr_text(e, ts, eps);
    match e {
        Expr::Int(n) => {
            reveal_strlit("-");
            if n < 0 {
                let m = (-(n as int)) as nat;
                lemma_split(s, i, "-"@, nat_text(m));
                lemma_stands_at(s, i, "-"@, 0);
                lemma_read_number(s, i + 1, m, ts);
            } else {
                lemma_read_number(s, i, n as nat, ts);
            }
        },
        Expr::Bool(b) => {
            reveal_strlit("true");
            reveal_strlit("false");
            let v = if b {
                seq!['t', 'r', 'u', 'e']
            } else {
                seq!['f', 'a', 'l', 's', 'e']
            };
            assert(t =~= v);
            lemma_read_name(s, i, v, ts);
        },
        Expr::Ident(v) => {
            lemma_read_name(s, i, v@, ts);
        },
        Expr::Unary { op, expr } => {
            reveal_strlit("-");
            reveal_strlit("!");
            let m = unop_text(op);
            lemma_split(s, i, m, expr_text(*expr, ts, eps));
            lemma_stands_at(s, i, m, 0);
            lemma_reads(s, i + 1, *expr, ts, eps);
        },
        Expr::Binary { .. } => lemma_reads_binary(s, i, e, ts, eps),
        Expr::Declassify(inner) => lemma_reads(s, i, *inner, ts, eps),
        Expr::Raw(inner) => lemma_reads(s, i, *inner, ts, eps),
        Expr::Ternary { .. } => if ts {
            lemma_reads_ts_choice(s, i, e, eps);
        } else {
            lemma_reads_rust_choice(s, i, e, eps);
        },
        Expr::ListLit(items) => lemma_reads_list_lit(s, i, e, ts, eps),
        Expr::Call { callee, args } => lemma_reads_call(s, i, e, ts, eps),
        _ => {},
    }
}

proof fn lemma_not_if(s: Seq<char>, i: int, t: Seq<char>)
    requires
        starts_well(t),
        stands(s, i, t),
        i + t.len() < s.len(),
        s[i + t.len()] == ' ',
    ensures
        !stands(s, i, seq!['i', 'f', ' ']),
{
    let w = seq!['i', 'f', ' '];
    if stands(s, i, w) {
        lemma_stands_at(s, i, w, 0);
        lemma_stands_at(s, i, w, 1);
        lemma_stands_at(s, i, w, 2);
        lemma_stands_at(s, i, t, 0);
        if t.len() >= 2 {
            lemma_stands_at(s, i, t, 1);
            if t.len() >= 3 {
                lemma_stands_at(s, i, t, 2);
            }
        }
    }
}

proof fn lemma_reads_binary(s: Seq<char>, i: int, e: Expr, ts: bool, eps: Seq<Seq<char>>)
    requires
        is_plain(e),
        e is Binary,
        stands(s, i, expr_text(e, ts, eps)),
        closes_here(s, i + expr_text(e, ts, eps).len()),
    ensures
        read(s, i, ts) == Some((tree_of(e), i + expr_text(e, ts, eps).len())),
    decreases e, 0int,
{
    let op = e->Binary_op;
    let left = *e->Binary_left;
    let right = *e->Binary_right;
    let l = expr_text(left, ts, eps);
    let r = expr_text(right, ts, eps);
    let o = binop_text(op);
    lemma_symbol(op);
    assert(expr_text(e, ts, eps) == "("@ + l + " "@ + o + " "@ + r + ")"@);
    lemma_binary_parts(s, i, l, o, r);
    let j = i + 1 + l.len();
    let k = j + 1 + o.len();
    let m = k + 1 + r.len();
    lemma_starts(left, ts, eps);
    lemma_not_if(s, i + 1, l);
    lemma_reads(s, i + 1, left, ts, eps);
    lemma_reads(s, k + 1, right, ts, eps);
    let tree = tree_of(e);
    assert(read_inner(s, i, ts) == Some((tree, m + 1)));
    assert(read_first(s, i, ts) == Some((tree, m + 1)));
    assert(read_more(s, m + 1, ts, tree) == Some((tree, m + 1)));
}

proof fn lemma_binary_parts(s: Seq<char>, i: int, l: Seq<char>, o: Seq<char>, r: Seq<char>)
    requires
        stands(s, i, "("@ + l + " "@ + o + " "@ + r + ")"@),
        o.len() == 1 || o.len() == 2,
        o.len() == 2 ==> o[1] != ' ',
    ensures
        ({
            let j = i + 1 + l.len();
            let k = j + 1 + o.len();
            let m = k + 1 + r.len();
            &&& ("("@ + l + " "@ + o + " "@ + r + ")"@).len() == m + 1 - i
            &&& s[i] == '('
            &&& stands(s, i + 1, l)
            &&& s[j] == ' '
            &&& s.subrange(j + 1, k) == o
            &&& s[k] == ' '
            &&& (o.len() == 1 <==> s[j + 2] == ' ')
            &&& stands(s, k + 1, r)
            &&& s[m] == ')'
            &&& stands(s, m, seq![')'])
            &&& j + 2 < s.len() && k < s.len() && m < s.len()
        }),
{
    reveal_strlit("(");
    reveal_strlit(")");
    reveal_strlit(" ");
    let t1 = "("@ + l;
    let t2 = t1 + " "@;
    let t3 = t2 + o;
    let t4 = t3 + " "@;
    let t5 = t4 + r;
    lemma_split(s, i, t5, ")"@);
    lemma_split(s, i, t4, r);
    lemma_split(s, i, t3, " "@);
    lemma_split(s, i, t2, o);
    lemma_split(s, i, t1, " "@);
    lemma_split(s, i, "("@, l);
    let j = i + 1 + l.len();
    let k = j + 1 + o.len();
    let m = k + 1 + r.len();
    lemma_stands_at(s, i, "("@, 0);
    lemma_stands_at(s, j, " "@, 0);
    if o.len() == 2 {
        lemma_stands_at(s, j + 1, o, 1);
    }
    lemma_stands_at(s, k, " "@, 0);
    lemma_stands_at(s, m, ")"@, 0);
    assert(")"@ =~= seq![')']);
}

proof fn lemma_reads_ts_choice(s: Seq<char>, i: int, e: Expr, eps: Seq<Seq<char>>)
    requires
        is_plain(e),
        e is Ternary,
        stands(s, i, expr_text(e, true, eps)),
        closes_here(s, i + expr_text(e, true, eps).len()),
    ensures
        read(s, i, true) == Some((tree_of(e), i + expr_text(e, true, eps).len())),
    decreases e, 0int,
{
    reveal_strlit("(");
    reveal_strlit(")");
    reveal_strlit(" ? ");
    reveal_strlit(" : ");
    let cond = *e->Ternary_cond;
    let yes = *e->Ternary_yes;
    let otherwise = *e->Ternary_otherwise;
    let c = expr_text(cond, true, eps);
    let y = expr_text(yes, true, eps);
    let o = expr_text(otherwise, true, eps);
    let t1 = "("@ + c;
    let t2 = t1 + " ? "@;
    let t3 = t2 + y;
    let t4 = t3 + " : "@;
    let t5 = t4 + o;
    assert(expr_text(e, true, eps) == t5 + ")"@);
    lemma_split(s, i, t5, ")"@);
    lemma_split(s, i, t4, o);
    lemma_split(s, i, t3, " : "@);
    lemma_split(s, i, t2, y);
    lemma_split(s, i, t1, " ? "@);
    lemma_split(s, i, "("@, c);
    let j = i + 1 + c.len();
    let k = j + 3;
    let m = k + y.len();
    let n = m + 3 + o.len();
    lemma_stands_at(s, i, "("@, 0);
    lemma_stands_at(s, j, " ? "@, 0);
    lemma_stands_at(s, j, " ? "@, 1);
    lemma_stands_at(s, j, " ? "@, 2);
    lemma_stands_at(s, m, " : "@, 0);
    lemma_stands_at(s, n, ")"@, 0);
    lemma_reads(s, i + 1, cond, true, eps);
    lemma_reads(s, k, yes, true, eps);
    lemma_reads(s, m + 3, otherwise, true, eps);
    assert(s.subrange(j + 1, j + 2) =~= seq!['?']);
    assert(" : "@ =~= seq![' ', ':', ' ']);
    assert(")"@ =~= seq![')']);
    let tree = tree_of(e);
    assert(read_inner(s, i, true) == Some((tree, n + 1)));
    assert(read_first(s, i, true) == Some((tree, n + 1)));
    assert(read_more(s, n + 1, true, tree) == Some((tree, n + 1)));
}

proof fn lemma_reads_rust_choice(s: Seq<char>, i: int, e: Expr, eps: Seq<Seq<char>>)
    requires
        is_plain(e),
        e is Ternary,
        stands(s, i, expr_text(e, false, eps)),
        closes_here(s, i + expr_text(e, false, eps).len()),
    ensures
        read(s, i, false) == Some((tree_of(e), i + expr_text(e, false, eps).len())),
    decreases e, 0int,
{
    let cond = *e->Ternary_cond;
    let yes = *e->Ternary_yes;
    let otherwise = *e->Ternary_otherwise;
    let c = expr_text(cond, false, eps);
    let y = expr_text(yes, false, eps);
    let o = expr_text(otherwise, false, eps);
    assert(expr_text(e, false, eps) == "(if "@ + c + " { "@ + y + " } else { "@ + o + " })"@);
    lemma_rust_choice_parts(s, i, c, y, o);
    let j = i + 4 + c.len();
    let k = j + 3 + y.len();
    let m = k + 10 + o.len();
    lemma_reads(s, i + 4, cond, false, eps);
    lemma_reads(s, j + 3, yes, false, eps);
    lemma_reads(s, k + 10, otherwise, false, eps);
    let tree = tree_of(e);
    assert(read_inner(s, i, false) == Some((tree, m + 3)));
    assert(read_first(s, i, false) == Some((tree, m + 3)));
    assert(read_more(s, m + 3, false, tree) == Some((tree, m + 3)));
}

proof fn lemma_rust_choice_parts(s: Seq<char>, i: int, c: Seq<char>, y: Seq<char>, o: Seq<char>)
    requires
        stands(s, i, "(if "@ + c + " { "@ + y + " } else { "@ + o + " })"@),
    ensures
        ({
            let j = i + 4 + c.len();
            let k = j + 3 + y.len();
            let m = k + 10 + o.len();
            &&& ("(if "@ + c + " { "@ + y + " } else { "@ + o + " })"@).len() == m + 3 - i
            &&& s[i] == '('
            &&& stands(s, i + 1, seq!['i', 'f', ' '])
            &&& stands(s, i + 4, c)
            &&& stands(s, j, seq![' ', '{', ' '])
            &&& s[j] == ' '
            &&& stands(s, j + 3, y)
            &&& stands(s, k, seq![' ', '}', ' ', 'e', 'l', 's', 'e', ' ', '{', ' '])
            &&& s[k] == ' '
            &&& stands(s, k + 10, o)
            &&& stands(s, m, seq![' ', '}', ')'])
            &&& s[m] == ' '
            &&& j < s.len() && k < s.len() && m < s.len()
        }),
{
    reveal_strlit("(if ");
    reveal_strlit(" { ");
    reveal_strlit(" } else { ");
    reveal_strlit(" })");
    let t1 = "(if "@ + c;
    let t2 = t1 + " { "@;
    let t3 = t2 + y;
    let t4 = t3 + " } else { "@;
    let t5 = t4 + o;
    lemma_split(s, i, t5, " })"@);
    lemma_split(s, i, t4, o);
    lemma_split(s, i, t3, " } else { "@);
    lemma_split(s, i, t2, y);
    lemma_split(s, i, t1, " { "@);
    lemma_split(s, i, "(if "@, c);
    let j = i + 4 + c.len();
    let k = j + 3 + y.len();
    let m = k + 10 + o.len();
    assert("(if "@ =~= seq!['('] + seq!['i', 'f', ' ']);
    lemma_split(s, i, seq!['('], seq!['i', 'f', ' ']);
    lemma_stands_at(s, i, "(if "@, 0);
    lemma_stands_at(s, j, " { "@, 0);
    lemma_stands_at(s, k, " } else { "@, 0);
    lemma_stands_at(s, m, " })"@, 0);
    assert(" { "@ =~= seq![' ', '{', ' ']);
    assert(" } else { "@ =~= seq![' ', '}', ' ', 'e', 'l', 's', 'e', ' ', '{', ' ']);
    assert(" })"@ =~= seq![' ', '}', ')']);
}

proof fn lemma_exprs_text(es: Seq<Expr>, n: int, ts: bool, eps: Seq<Seq<char>>)
    requires
        0 <= n <= es.len(),
    ensures
        exprs_text(es, n, ts, eps).len() == n,
        forall|k: int| 0 <= k < n ==> #[trigger] exprs_text(es, n, ts, eps)[k] == expr_text(es[k], ts, eps),
    decreases n,
{
    if n > 0 {
        lemma_exprs_text(es, n - 1, ts, eps);
    }
}

proof fn lemma_trees_of(es: Seq<Expr>, n: int)
    requires
        0 <= n <= es.len(),
    ensures
        trees_of(es, n).len() == n,
        forall|k: int| 0 <= k < n ==> #[trigger] trees_of(es, n)[k] == tree_of(es[k]),
    decreases n,
{
    if n > 0 {
        lemma_trees_of(es, n - 1);
    }
}

proof fn lemma_reads_items(
    s: Seq<char>,
    i: int,
    es: Seq<Expr>,
    k: int,
    ts: bool,
    eps: Seq<Seq<char>>,
    close: char,
)
    requires
        close == ')' || close == ']',
        0 <= k < es.len(),
        forall|j: int| 0 <= j < es.len() ==> is_plain(#[trigger] es[j]),
        ({
            let ts1 = exprs_text(es, es.len() as int, ts, eps).subrange(k, es.len() as int);
            let t = join_text(ts1, ", "@);
            stands(s, i, t) && i + t.len() < s.len() && s[i + t.len()] == close
        }),
    ensures
        ({
            let ts1 = exprs_text(es, es.len() as int, ts, eps).subrange(k, es.len() as int);
            let t = join_text(ts1, ", "@);
            read_list(s, i, ts, close) == Some(
                (trees_of(es, es.len() as int).subrange(k, es.len() as int), i + t.len() + 1),
            )
        }),
    decreases es, es.len() - k,
{
    reveal_strlit(", ");
    let n = es.len() as int;
    let texts = exprs_text(es, n, ts, eps);
    let trees = trees_of(es, n);
    lemma_exprs_text(es, n, ts, eps);
    lemma_trees_of(es, n);
    let part = texts.subrange(k, n);
    let t = join_text(part, ", "@);
    let one = expr_text(es[k], ts, eps);
    lemma_starts(es[k], ts, eps);
    if k == n - 1 {
        assert(part =~= seq![one]);
        assert(t == one);
        lemma_stands_at(s, i, one, 0);
        lemma_reads(s, i, es[k], ts, eps);
        assert(trees.subrange(k, n) =~= seq![tree_of(es[k])]);
    } else {
        let rest = texts.subrange(k + 1, n);
        assert(part =~= seq![one] + rest);
        lemma_join_one(one, rest, ", "@);
        let u = join_text(rest, ", "@);
        assert(t == one + ", "@ + u);
        lemma_split(s, i, one + ", "@, u);
        lemma_split(s, i, one, ", "@);
        let j = i + one.len();
        lemma_stands_at(s, i, one, 0);
        lemma_stands_at(s, j, ", "@, 0);
        lemma_reads(s, i, es[k], ts, eps);
        lemma_reads_items(s, j + 2, es, k + 1, ts, eps, close);
        assert(", "@ =~= seq![',', ' ']);
        assert(trees.subrange(k, n) =~= seq![tree_of(es[k])] + trees.subrange(k + 1, n));
    }
}

proof fn lemma_reads_all(
    s: Seq<char>,
    i: int,
    es: Seq<Expr>,
    ts: bool,
    eps: Seq<Seq<char>>,
    close: char,
)
    requires
        close == ')' || close == ']',
        forall|j: int| 0 <= j < es.len() ==> is_plain(#[trigger] es[j]),
        ({
            let t = join_text(exprs_text(es, es.len() as int, ts, eps), ", "@);
            stands(s, i, t) && i + t.len() < s.len() && s[i + t.len()] == close
        }),
    ensures
        ({
            let t = join_text(exprs_text(es, es.len() as int, ts, eps), ", "@);
            read_list(s, i, ts, close) == Some((trees_of(es, es.len() as int), i + t.len() + 1))
        }),
    decreases es, es.len() + 1,
{
    let n = es.len() as int;
    lemma_exprs_text(es, n, ts, eps);
    lemma_trees_of(es, n);
    let texts = exprs_text(es, n, ts, eps);
    if n == 0 {
        assert(trees_of(es, n) =~= Seq::<Tree>::empty());
    } else {
        assert(texts.subrange(0, n) =~= texts);
        assert(trees_of(es, n).subrange(0, n) =~= trees_of(es, n));
        lemma_reads_items(s, i, es, 0, ts, eps, close);
    }
}

proof fn lemma_reads_list_lit(s: Seq<char>, i: int, e: Expr, ts: bool, eps: Seq<Seq<char>>)
    requires
        is_plain(e),
        e is ListLit,
        stands(s, i, expr_text(e, ts, eps)),
        closes_here(s, i + expr_text(e, ts, eps).len()),
    ensures
        read(s, i, ts) == Some((tree_of(e), i + expr_text(e, ts, eps).len())),
    decreases e, 0int,
{
    reveal_strlit("[");
    reveal_strlit("vec![");
    reveal_strlit("]");
    let items = e->ListLit_0@;
    let body = join_text(exprs_text(items, items.len() as int, ts, eps), ", "@);
    let open = if ts {
        "["@
    } else {
        "vec!["@
    };
    assert(expr_text(e, ts, eps) == open + body + "]"@);
    lemma_split(s, i, open + body, "]"@);
    lemma_split(s, i, open, body);
    let j = i + open.len();
    let k = j + body.len();
    lemma_stands_at(s, k, "]"@, 0);
    lemma_reads_all(s, j, items, ts, eps, ']');
    lemma_stands_at(s, i, open, 0);
    let tree = tree_of(e);
    if !ts {
        let v = seq!['v', 'e', 'c'];
        assert("vec!["@ =~= v + seq!['!', '[']);
        lemma_split(s, i, v, seq!['!', '[']);
        lemma_stands_at(s, i + 3, seq!['!', '['], 0);
        lemma_stands_at(s, i + 3, seq!['!', '['], 1);
        lemma_word_end(s, i, v);
        assert(s.subrange(i, i + 3) =~= v);
    }
    assert(read_first(s, i, ts) == Some((tree, k + 1)));
    assert(read_more(s, k + 1, ts, tree) == Some((tree, k + 1)));
}

proof fn lemma_reads_call(s: Seq<char>, i: int, e: Expr, ts: bool, eps: Seq<Seq<char>>)
    requires
        is_plain(e),
        e is Call,
        stands(s, i, expr_text(e, ts, eps)),
        closes_here(s, i + expr_text(e, ts, eps).len()),
    ensures
        read(s, i, ts) == Some((tree_of(e), i + expr_text(e, ts, eps).len())),
    decreases e, 0int,
{
    reveal_strlit("(");
    reveal_strlit(")");
    lemma_user_call(e, ts, eps);
    let c = e->Call_callee@;
    let args = e->Call_args@;
    let body = join_text(exprs_text(args, args.len() as int, ts, eps), ", "@);
    lemma_split(s, i, c + "("@ + body, ")"@);
    lemma_split(s, i, c + "("@, body);
    lemma_split(s, i, c, "("@);
    let j = i + c.len();
    let k = j + 1 + body.len();
    lemma_stands_at(s, i, c, 0);
    assert(is_wordy(c[0]));
    lemma_stands_at(s, j, "("@, 0);
    lemma_stands_at(s, k, ")"@, 0);
    lemma_word_end(s, i, c);
    lemma_reads_all(s, j + 1, args, ts, eps, ')');
    let tree = tree_of(e);
    assert(read_first(s, i, ts) == Some((tree, k + 1)));
    assert(read_more(s, k + 1, ts, tree) == Some((tree, k + 1)));
}

/// What is printed reads back, on either tier, as the expression that it was printed from: each operand on
/// its side of the operator, each argument at its place, each branch where it was.
pub proof fn law_printed_expression_reads_back(e: Expr, ts: bool, eps: Seq<Seq<char>>)
    requires
        is_plain(e),
    ensures
        read(expr_text(e, ts, eps), 0, ts) == Some((tree_of(e), expr_text(e, ts, eps).len() as int)),
{
    let t = expr_text(e, ts, eps);
    assert(t.subrange(0, t.len() as int) =~= t);
    lemma_reads(t, 0, e, ts, eps);
}

/// Two plain expressions that are printed alike are one expression to every tier.
pub proof fn law_printing_tells_expressions_apart(a: Expr, b: Expr, ts: bool, eps: Seq<Seq<char>>)
    requires
        is_plain(a),
        is_plain(b),
        expr_text(a, ts, eps) == expr_text(b, ts, eps),
    ensures
        tree_of(a) == tree_of(b),
{
    law_printed_expression_reads_back(a, ts, eps);
    law_printed_expression_reads_back(b, ts, eps);
}

proof fn lemma_symbols_differ(op: BinOp)
    ensures
        symbol(op) == seq!['+'] <==> op == BinOp::Add,
        symbol(op) == seq!['-'] <==> op == BinOp::Sub,
        symbol(op) == seq!['*'] <==> op == BinOp::Mul,
        symbol(op) == seq!['<'] <==> op == BinOp::Lt,
        symbol(op) == seq!['>'] <==> op == BinOp::Gt,
        symbol(op) == seq!['<', '='] <==> op == BinOp::LtEq,
        symbol(op) == seq!['>', '='] <==> op == BinOp::GtEq,
        symbol(op) == seq!['=', '='] <==> op == BinOp::Eq,
        symbol(op) == seq!['!', '='] <==> op == BinOp::NotEq,
        symbol(op) == seq!['&', '&'] <==> op == BinOp::And,
        symbol(op) == seq!['|', '|'] <==> op == BinOp::Or,
{
    let s = symbol(op);
    assert(s.len() == 1 || s.len() == 2);
    assert(op == BinOp::Add ==> s[0] == '+');
    assert(op == BinOp::Sub ==> s[0] == '-');
    assert(op == BinOp::Mul ==> s[0] == '*');
    assert(op == BinOp::Div ==> s[0] == '/');
    assert(op == BinOp::Lt ==> s[0] == '<' && s.len() == 1);
    assert(op == BinOp::Gt ==> s[0] == '>' && s.len() == 1);
    assert(op == BinOp::LtEq ==> s[0] == '<' && s.len() == 2);
    assert(op == BinOp::GtEq ==> s[0] == '>' && s.len() == 2);
    assert(op == BinOp::Eq ==> s[0] == '=');
    assert(op == BinOp::NotEq ==> s[0] == '!');
    assert(op == BinOp::And ==> s[0] == '&');
    assert(op == BinOp::Or ==> s[0] == '|');
    assert(seq!['+'][0] == '+' && seq!['-'][0] == '-' && seq!['*'][0] == '*' && seq!['<'][0] == '<');
    assert(seq!['>'][0] == '>' && seq!['<', '='].len() == 2 && seq!['>', '='].len() == 2);
    assert(seq!['<', '='][0] == '<' && seq!['>', '='][0] == '>' && seq!['=', '='][0] == '=');
    assert(seq!['!', '='][0] == '!' && seq!['&', '&'][0] == '&' && seq!['|', '|'][0] == '|');
    assert(seq!['+'].len() == 1 && seq!['<'].len() == 1 && seq!['>'].len() == 1);
}

proof fn lemma_operator(op: BinOp, l: ValueView, r: ValueView)
    requires
        is_common(l),
        is_common(r),
    ensures
        l is Int && r is Int ==> (of_integers(symbol(op), l->Int_0, r->Int_0) matches Some(v)
            ==> is_common(v) && operated(op, l, r) == crate::builtin::PlanView::Value(v)),
        l is Bool && r is Bool ==> (of_truths(symbol(op), l->Bool_0, r->Bool_0) matches Some(v)
            ==> is_common(v) && operated(op, l, r) == crate::builtin::PlanView::Value(v)),
{
    lemma_symbols_differ(op);
    if l is Int && r is Int {
        let x = l->Int_0;
        let y = r->Int_0;
        law_small_integers_are_exact(x);
        law_small_integers_are_exact(y);
        if is_exact(x - y) {
            law_small_integers_are_exact(x - y);
        }
        if is_exact(x * y) {
            law_small_integers_are_exact(x * y);
        }
    }
}

proof fn lemma_value(w: World, e: Expr, env: Env, at: TrackView, fuel: nat)
    requires
        is_plain(e),
        value_of(tree_of(e), env) is Some,
    ensures
        is_common(value_of(tree_of(e), env)->0),
        eval_at(w, e, env, at, fuel) == ran(value_of(tree_of(e), env)->0, at),
    decreases e,
{
    match e {
        Expr::Int(n) => {
            if n < 0 {
                let inner = Tree::Num((-(n as int)) as nat);
                assert(tree_of(e) == Tree::Neg(Box::new(inner)));
                assert(value_of(inner, env) == exactly(-(n as int)));
            }
        },
        Expr::Bool(b) => {
            let v = seq!['t', 'r', 'u', 'e'];
            let u = seq!['f', 'a', 'l', 's', 'e'];
            assert(v.len() == 4 && u.len() == 5);
        },
        Expr::Ident(v) => {},
        Expr::Unary { op, expr } => {
            lemma_value(w, *expr, env, at, fuel);
        },
        Expr::Binary { op, left, right } => {
            lemma_value(w, *left, env, at, fuel);
            lemma_value(w, *right, env, at, fuel);
            lemma_operator(
                op,
                value_of(tree_of(*left), env)->0,
                value_of(tree_of(*right), env)->0,
            );
        },
        Expr::Declassify(inner) => lemma_value(w, *inner, env, at, fuel),
        Expr::Raw(inner) => lemma_value(w, *inner, env, at, fuel),
        Expr::Ternary { cond, yes, otherwise } => {
            lemma_value(w, *cond, env, at, fuel);
            if value_of(tree_of(*cond), env)->0->Bool_0 {
                lemma_value(w, *yes, env, at, fuel);
            } else {
                lemma_value(w, *otherwise, env, at, fuel);
            }
        },
        _ => {},
    }
}

/// Generated code comes to what the interpreter comes to: what the printed text of an expression of
/// integers and truths gives, read by the rules of the tier, is the value of the expression.
pub proof fn law_printed_expression_comes_to_the_same(
    w: World,
    e: Expr,
    ts: bool,
    eps: Seq<Seq<char>>,
    env: Env,
    at: TrackView,
    fuel: nat,
)
    requires
        is_plain(e),
    ensures
        read(expr_text(e, ts, eps), 0, ts) matches Some((t, _)) && (value_of(t, env) matches Some(v)
            ==> eval_at(w, e, env, at, fuel) == ran(v, at)),
{
    law_printed_expression_reads_back(e, ts, eps);
    if value_of(tree_of(e), env) is Some {
        lemma_value(w, e, env, at, fuel);
    }
}

/// Whether handler code prints an expression as the rest of the browser's code does: no capability of the
/// server is named in it, and no list method is called.
pub open spec fn is_shared(e: Expr, eps: Seq<Seq<char>>) -> bool
    decreases e,
{
    match e {
        Expr::Int(_)
        | Expr::Float(_)
        | Expr::Str(_)
        | Expr::Bool(_)
        | Expr::Ident(_)
        | Expr::NoneLit => true,
        Expr::Field { base, .. } => !is_named(*base, "session"@) && is_shared(*base, eps),
        Expr::Unary { expr, .. } => is_shared(*expr, eps),
        Expr::Binary { left, right, .. } => is_shared(*left, eps) && is_shared(*right, eps),
        Expr::Call { args, .. } => all_shared(args@, eps) && (args@.len() > 0 && args@[0] is Record
            ==> all_fields_shared(args@[0]->Record_fields@, eps)),
        Expr::MethodCall { receiver, method, args } => {
            &&& !is_named(*receiver, "session"@)
            &&& !is_named(*receiver, "db"@)
            &&& !is_named(*receiver, "log"@)
            &&& !(*receiver is Ident && eps.contains(receiver->Ident_0@))
            &&& method@ != "first"@ && method@ != "last"@ && method@ != "at"@ && method@ != "reverse"@
            &&& is_shared(*receiver, eps)
            &&& all_shared(args@, eps)
        },
        Expr::Declassify(inner) => is_shared(*inner, eps),
        Expr::Raw(inner) => is_shared(*inner, eps),
        Expr::Await(inner) => is_shared(*inner, eps),
        Expr::Record { fields, .. } => all_fields_shared(fields@, eps),
        Expr::ListLit(items) => all_shared(items@, eps),
        Expr::Ternary { cond, yes, otherwise } => is_shared(*cond, eps) && is_shared(*yes, eps)
            && is_shared(*otherwise, eps),
        Expr::Range { start, end } => is_shared(*start, eps) && is_shared(*end, eps),
        Expr::Index { base, index } => is_shared(*base, eps) && is_shared(*index, eps),
        Expr::Closure { body, .. } => is_shared(*body, eps),
    }
}

/// Whether handler code prints all of these expressions so.
pub open spec fn all_shared(es: Seq<Expr>, eps: Seq<Seq<char>>) -> bool
    decreases es,
{
    forall|i: int| 0 <= i < es.len() ==> is_shared(#[trigger] es[i], eps)
}

/// Whether handler code prints all of these fields so.
pub open spec fn all_fields_shared(fs: Seq<(String, Expr)>, eps: Seq<Seq<char>>) -> bool
    decreases fs,
{
    forall|i: int| 0 <= i < fs.len() ==> is_shared((#[trigger] fs[i]).1, eps)
}

/// Whether an expression is a name.
pub open spec fn is_named(e: Expr, name: Seq<char>) -> bool {
    e matches Expr::Ident(n) && n@ == name
}

proof fn lemma_shared_list(es: Seq<Expr>, n: int, screen: Seq<char>, eps: Seq<Seq<char>>)
    requires
        all_shared(es, eps),
        n <= es.len(),
    ensures
        h_exprs_text(es, n, screen, Seq::empty()) == exprs_text(es, n, true, eps),
    decreases es, n,
{
    if n > 0 {
        lemma_shared_list(es, n - 1, screen, eps);
        law_handlers_print_as_the_client_does(es[n - 1], screen, eps);
    }
}

proof fn lemma_shared_fields(
    style: FieldStyle,
    fs: Seq<(String, Expr)>,
    n: int,
    screen: Seq<char>,
    eps: Seq<Seq<char>>,
)
    requires
        all_fields_shared(fs, eps),
        n <= fs.len(),
    ensures
        h_fields_text(style, fs, n, screen, Seq::empty()) == fields_text(style, fs, n, true, eps),
    decreases fs, n,
{
    if n > 0 {
        lemma_shared_fields(style, fs, n - 1, screen, eps);
        assert(decreases_to!(fs => fs[n - 1]));
        law_handlers_print_as_the_client_does(fs[n - 1].1, screen, eps);
    }
}

proof fn lemma_shared_arg(
    args: Seq<Expr>,
    i: int,
    screen: Seq<char>,
    eps: Seq<Seq<char>>,
    default: Seq<char>,
)
    requires
        all_shared(args, eps),
    ensures
        h_arg_text(args, i, screen, Seq::empty(), default) == arg_text(args, i, true, eps, default),
    decreases args, 0int,
{
    if 0 <= i < args.len() {
        law_handlers_print_as_the_client_does(args[i], screen, eps);
    }
}

proof fn lemma_shared_call(e: Expr, screen: Seq<char>, eps: Seq<Seq<char>>)
    requires
        is_shared(e, eps),
        e is Call,
    ensures
        h_call_text(e, screen, Seq::empty()) == call_text(e, true, eps),
    decreases e, 0int,
{
    let args = e->Call_args@;
    lemma_shared_arg(args, 0, screen, eps, ""@);
    lemma_shared_arg(args, 1, screen, eps, ""@);
    lemma_shared_arg(args, 0, screen, eps, "\"\""@);
    lemma_shared_list(args, args.len() as int, screen, eps);
    if args.len() > 0 && args[0] is Record {
        assert(decreases_to!(args => args[0]));
        let fields = args[0]->Record_fields@;
        lemma_shared_fields(FieldStyle::Route, fields, fields.len() as int, screen, eps);
    }
}

proof fn lemma_shared_method(e: Expr, screen: Seq<char>, eps: Seq<Seq<char>>)
    requires
        is_shared(e, eps),
        e is MethodCall,
    ensures
        h_method_text(e, screen, Seq::empty()) == method_text(e, true, eps),
    decreases e, 0int,
{
    let args = e->MethodCall_args@;
    let receiver = *e->MethodCall_receiver;
    law_handlers_print_as_the_client_does(receiver, screen, eps);
    lemma_shared_arg(args, 0, screen, eps, ""@);
    lemma_shared_arg(args, 1, screen, eps, ""@);
    lemma_shared_list(args, args.len() as int, screen, eps);
    assert(builtin_method_text(e, true, eps) is None);
}

/// Handler code prints an expression that names no cell as the rest of the browser's code does.
pub proof fn law_handlers_print_as_the_client_does(e: Expr, screen: Seq<char>, eps: Seq<Seq<char>>)
    requires
        is_shared(e, eps),
    ensures
        h_expr_text(e, screen, Seq::empty()) == expr_text(e, true, eps),
    decreases e, 1int,
{
    match e {
        Expr::Field { base, .. } => law_handlers_print_as_the_client_does(*base, screen, eps),
        Expr::Unary { expr, .. } => law_handlers_print_as_the_client_does(*expr, screen, eps),
        Expr::Binary { left, right, .. } => {
            law_handlers_print_as_the_client_does(*left, screen, eps);
            law_handlers_print_as_the_client_does(*right, screen, eps);
        },
        Expr::Call { .. } => lemma_shared_call(e, screen, eps),
        Expr::MethodCall { .. } => lemma_shared_method(e, screen, eps),
        Expr::Declassify(inner) => law_handlers_print_as_the_client_does(*inner, screen, eps),
        Expr::Raw(inner) => law_handlers_print_as_the_client_does(*inner, screen, eps),
        Expr::Await(inner) => law_handlers_print_as_the_client_does(*inner, screen, eps),
        Expr::Record { fields, .. } => lemma_shared_fields(
            FieldStyle::Object,
            fields@,
            fields@.len() as int,
            screen,
            eps,
        ),
        Expr::ListLit(items) => lemma_shared_list(items@, items@.len() as int, screen, eps),
        Expr::Ternary { cond, yes, otherwise } => {
            law_handlers_print_as_the_client_does(*cond, screen, eps);
            law_handlers_print_as_the_client_does(*yes, screen, eps);
            law_handlers_print_as_the_client_does(*otherwise, screen, eps);
        },
        Expr::Range { start, end } => {
            law_handlers_print_as_the_client_does(*start, screen, eps);
            law_handlers_print_as_the_client_does(*end, screen, eps);
        },
        Expr::Index { base, index } => {
            law_handlers_print_as_the_client_does(*base, screen, eps);
            law_handlers_print_as_the_client_does(*index, screen, eps);
        },
        Expr::Closure { body, .. } => law_handlers_print_as_the_client_does(*body, screen, eps),
        _ => {},
    }
}

/// A cell of a screen is read through the screen's state object, and any other name is read as it is.
pub proof fn law_cells_are_read_through_the_state(v: Seq<char>, screen: Seq<char>, sv: Seq<Seq<char>>)
    requires
        is_free_name(v),
        is_free_name(screen),
    ensures
        ({
            let t = cell_text(v, screen, sv);
            read(t, 0, true) == Some(
                (
                    if sv.contains(v) {
                        Tree::Member(
                            Box::new(
                                Tree::Name(screen + seq!['_', 's', 't', 'a', 't', 'e']),
                            ),
                            v,
                        )
                    } else {
                        Tree::Name(v)
                    },
                    t.len() as int,
                ),
            )
        }),
{
    let t = cell_text(v, screen, sv);
    assert(t.subrange(0, t.len() as int) =~= t);
    if sv.contains(v) {
        reveal_strlit("_state.");
        let head = screen + seq!['_', 's', 't', 'a', 't', 'e'];
        assert(t =~= head + (seq!['.'] + v));
        lemma_split(t, 0, head, seq!['.'] + v);
        lemma_split(t, head.len() as int, seq!['.'], v);
        let j = head.len() as int;
        assert(t[j] == '.');
        assert(is_wordy(head[0])) by {
            assert(is_wordy(screen[0]));
        }
        assert(t[0] == head[0]);
        assert forall|k: int| 0 <= k < head.len() implies is_wordy(#[trigger] head[k]) by {
            if k < screen.len() {
                assert(is_wordy(screen[k]));
            }
        }
        lemma_word_end(t, 0, head);
        assert(head != seq!['v', 'e', 'c']) by {
            assert(head.len() > 3);
        }
        let first = Tree::Name(head);
        assert(!is_numeral(t[0]));
        assert(t.subrange(0, j) =~= head);
        assert(read_first(t, 0, true) == Some((first, j)));
        lemma_stands_at(t, j + 1, v, 0);
        assert(is_wordy(v[0]));
        lemma_word_end(t, j + 1, v);
        let whole = Tree::Member(Box::new(first), v);
        assert(t.subrange(j + 1, t.len() as int) =~= v);
        assert(read_more(t, t.len() as int, true, whole) == Some((whole, t.len() as int)));
        assert(read_more(t, j, true, first) == Some((whole, t.len() as int)));
    } else {
        lemma_read_name(t, 0, v, true);
    }
}

} // verus!
