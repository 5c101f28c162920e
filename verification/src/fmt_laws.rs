//! What holds of the formatter's output: it is read as the tokens that it was written from, and
//! formatting it again changes nothing.
use vstd::prelude::*;

use crate::fmt::{
    balance, breaks_before, breaks_in, closes, float_text, fmt_emit, fmt_head, fmt_lines, fmt_run,
    fmt_start, fmt_step, format_text, glue, indent_text, is_numeral, is_word, is_word_sym, lead_zeros,
    line_step, opens, placed_at, render_text, space_before, starts_equal, token_at, token_text, tokens_from, tokens_of, trail_zeros,
    well_closed, FmtView, LineView, OutView, PlacedView,
};
use crate::lexer::{
    chr, digits_end, lemma_skip_space, lex_at, line_at, line_end, mark, number_at, plain_token,
    quote_end, skip_space, word_at, word_char, word_end, Lexed,
};
use crate::num::{all_digits, int_text, is_digit, law_nat_text_reads_back, nat_text};
use crate::scan::{find_char, lemma_find_char, trim_back};
use crate::token::{keyword, sym_text, Sym, TokenView};
use crate::unicode::{char_is_alpha, char_is_space};

verus! {

/// Whether every character of a text can stand in a word.
pub open spec fn all_word(w: Seq<char>) -> bool {
    forall|i: int| 0 <= i < w.len() ==> word_char(#[trigger] w[i])
}

/// Whether a text is a float literal: digits, a dot, digits.
pub open spec fn is_float(s: Seq<char>) -> bool {
    exists|k: int|
        0 < k < s.len() - 1 && s[k] == '.' && all_digits(#[trigger] s.subrange(0, k)) && all_digits(
            s.subrange(k + 1, s.len() as int),
        )
}

/// Whether a character is neither white space nor the end, and starts no token but a mark that is
/// written twice.
pub open spec fn unknown_char(c: char) -> bool {
    &&& !char_is_space(c)
    &&& !word_char(c)
    &&& c != '\0' && c != '"' && c != '=' && c != ':' && c != '?' && c != ',' && c != '.' && c != '{' && c
        != '}' && c != '(' && c != ')' && c != '[' && c != ']' && c != '+' && c != '*' && c != '<' && c
        != '>' && c != '!' && c != '-' && c != '/'
}

/// Whether a token is one that a source can hold, the end aside.
pub open spec fn valid(t: TokenView) -> bool {
    match t {
        TokenView::Identifier(w) => w.len() > 0 && all_word(w) && !is_digit(w[0]) && keyword(
            w,
        ) is None,
        TokenView::Int(n) => 0 <= n <= i64::MAX,
        TokenView::Float(s) => is_float(s),
        TokenView::Str(s) => forall|i: int|
            0 <= i < s.len() ==> #[trigger] s[i] != '"' && s[i] != '\0',
        TokenView::Comment(s) => {
            &&& s.len() >= 2
            &&& s[0] == '/'
            &&& s[1] == '/'
            &&& !char_is_space(s.last())
            &&& forall|i: int| 0 <= i < s.len() ==> #[trigger] s[i] != '\n' && s[i] != '\0'
        },
        TokenView::Illegal(c) => unknown_char(c),
        TokenView::Sym(s) => s != Sym::EOF,
    }
}

/// A token as its canonical spelling is read.
pub open spec fn canon(t: TokenView) -> TokenView {
    match t {
        TokenView::Float(s) => TokenView::Float(float_text(s)),
        _ => t,
    }
}

/// Whether the characters behind a token's spelling leave it the token that it is.
pub open spec fn apart(t: TokenView, a: char, b: char) -> bool {
    if is_word(t) {
        !word_char(a)
    } else {
        match t {
            TokenView::Int(_) => !is_digit(a) && !(a == '.' && is_digit(b)),
            TokenView::Float(_) => !is_digit(a),
            TokenView::Comment(_) => a == '\n',
            TokenView::Illegal(c) => !((c == '&' || c == '|') && a == c),
            TokenView::Sym(s) => if s == Sym::Assign || s == Sym::Bang || s == Sym::LAngle || s
                == Sym::RAngle {
                a != '='
            } else if s == Sym::Dot {
                a != '.'
            } else if s == Sym::Minus {
                a != '>'
            } else if s == Sym::Slash {
                a != '/'
            } else {
                true
            },
            _ => true,
        }
    }
}

proof fn lemma_keyword_reads(s: Sym)
    requires
        is_word_sym(s),
    ensures
        keyword(sym_text(s)) == Some(s),
        sym_text(s).len() > 0,
        all_word(sym_text(s)),
        char_is_alpha(sym_text(s)[0]),
{
    reveal_strlit("server");
    reveal_strlit("ui");
    reveal_strlit("secret");
    reveal_strlit("synced");
    reveal_strlit("local");
    reveal_strlit("model");
    reveal_strlit("state");
    reveal_strlit("declassify");
    reveal_strlit("raw");
    reveal_strlit("auth");
    reveal_strlit("await");
    reveal_strlit("try");
    reveal_strlit("catch");
    reveal_strlit("bind");
    reveal_strlit("none");
    reveal_strlit("fn");
    reveal_strlit("let");
    reveal_strlit("return");
    reveal_strlit("true");
    reveal_strlit("false");
    assert("server"@.len() == 6);
    assert("ui"@.len() == 2);
    assert("secret"@.len() == 6);
    assert("synced"@.len() == 6);
    assert("local"@.len() == 5);
    assert("model"@.len() == 5);
    assert("state"@.len() == 5);
    assert("declassify"@.len() == 10);
    assert("raw"@.len() == 3);
    assert("auth"@.len() == 4);
    assert("await"@.len() == 5);
    assert("try"@.len() == 3);
    assert("catch"@.len() == 5);
    assert("bind"@.len() == 4);
    assert("none"@.len() == 4);
    assert("fn"@.len() == 2);
    assert("let"@.len() == 3);
    assert("return"@.len() == 6);
    assert("true"@.len() == 4);
    assert("false"@.len() == 5);
    assert("server"@[2] != "secret"@[2]);
    assert("server"@[1] != "synced"@[1]);
    assert("server"@[0] != "return"@[0]);
    assert("ui"@[0] != "fn"@[0]);
    assert("secret"@[1] != "synced"@[1]);
    assert("secret"@[0] != "return"@[0]);
    assert("synced"@[0] != "return"@[0]);
    assert("local"@[0] != "model"@[0]);
    assert("local"@[0] != "state"@[0]);
    assert("local"@[0] != "await"@[0]);
    assert("local"@[0] != "catch"@[0]);
    assert("local"@[0] != "false"@[0]);
    assert("model"@[0] != "state"@[0]);
    assert("model"@[0] != "await"@[0]);
    assert("model"@[0] != "catch"@[0]);
    assert("model"@[0] != "false"@[0]);
    assert("state"@[0] != "await"@[0]);
    assert("state"@[0] != "catch"@[0]);
    assert("state"@[0] != "false"@[0]);
    assert("raw"@[0] != "try"@[0]);
    assert("raw"@[0] != "let"@[0]);
    assert("auth"@[0] != "bind"@[0]);
    assert("auth"@[0] != "none"@[0]);
    assert("auth"@[0] != "true"@[0]);
    assert("await"@[0] != "catch"@[0]);
    assert("await"@[0] != "false"@[0]);
    assert("try"@[0] != "let"@[0]);
    assert("catch"@[0] != "false"@[0]);
    assert("bind"@[0] != "none"@[0]);
    assert("bind"@[0] != "true"@[0]);
    assert("none"@[0] != "true"@[0]);
}

/// A float literal, by the place of its dot.
spec fn float_at(s: Seq<char>, k: int) -> bool {
    &&& 0 < k < s.len() - 1
    &&& s[k] == '.'
    &&& forall|i: int| 0 <= i < k ==> is_digit(#[trigger] s[i])
    &&& forall|i: int| k < i < s.len() ==> is_digit(#[trigger] s[i])
}

proof fn lemma_float_at(s: Seq<char>) -> (k: int)
    requires
        is_float(s),
    ensures
        float_at(s, k),
{
    let k = choose|k: int|
        0 < k < s.len() - 1 && s[k] == '.' && all_digits(#[trigger] s.subrange(0, k)) && all_digits(
            s.subrange(k + 1, s.len() as int),
        );
    assert forall|i: int| 0 <= i < k implies is_digit(#[trigger] s[i]) by {
        assert(s.subrange(0, k)[i] == s[i]);
        assert(is_digit(s.subrange(0, k)[i]));
    }
    assert forall|i: int| k < i < s.len() implies is_digit(#[trigger] s[i]) by {
        assert(s.subrange(k + 1, s.len() as int)[i - k - 1] == s[i]);
        assert(is_digit(s.subrange(k + 1, s.len() as int)[i - k - 1]));
    }
    k
}

proof fn lemma_is_float(s: Seq<char>, k: int)
    requires
        float_at(s, k),
    ensures
        is_float(s),
{
    let a = s.subrange(0, k);
    let b = s.subrange(k + 1, s.len() as int);
    assert forall|i: int| 0 <= i < a.len() implies is_digit(#[trigger] a[i]) by {
        assert(a[i] == s[i]);
    }
    assert forall|i: int| 0 <= i < b.len() implies is_digit(#[trigger] b[i]) by {
        assert(b[i] == s[k + 1 + i]);
    }
    assert(all_digits(s.subrange(0, k)));
}

proof fn lemma_dot_place(s: Seq<char>, k: int)
    requires
        float_at(s, k),
    ensures
        find_char(s, '.', 0) == Some(k),
{
    lemma_find_char(s, '.', 0);
    match find_char(s, '.', 0) {
        Some(j) => {
            if j < k {
                assert(is_digit(s[j]));
            }
        },
        None => {
            assert(s[k] != '.');
        },
    }
}

proof fn lemma_lead(t: Seq<char>, i: int)
    requires
        0 <= i < t.len(),
    ensures
        i <= lead_zeros(t, i) < t.len(),
        lead_zeros(t, i) < t.len() - 1 ==> t[lead_zeros(t, i)] != '0',
    decreases t.len() - i,
{
    if i < t.len() - 1 && t[i] == '0' {
        lemma_lead(t, i + 1);
    }
}

proof fn lemma_trail(t: Seq<char>, n: int)
    requires
        1 <= n <= t.len(),
    ensures
        1 <= trail_zeros(t, n) <= n,
        trail_zeros(t, n) > 1 ==> t[trail_zeros(t, n) - 1] != '0',
    decreases n,
{
    if 1 < n && t[n - 1] == '0' {
        lemma_trail(t, n - 1);
    }
}

proof fn lemma_float_text(s: Seq<char>) -> (k: int)
    requires
        is_float(s),
    ensures
        float_at(float_text(s), k),
        is_float(float_text(s)),
        float_text(float_text(s)) == float_text(s),
{
    let d = lemma_float_at(s);
    lemma_dot_place(s, d);
    reveal_strlit(".");
    let whole = s.subrange(0, d);
    let part = s.subrange(d + 1, s.len() as int);
    lemma_lead(whole, 0);
    lemma_trail(part, part.len() as int);
    let i = lead_zeros(whole, 0);
    let e = trail_zeros(part, part.len() as int);
    let w2 = whole.subrange(i, whole.len() as int);
    let p2 = part.subrange(0, e);
    let f = float_text(s);
    assert(f == w2 + "."@ + p2);
    let k = w2.len() as int;
    assert(f[k] == '.');
    assert forall|j: int| 0 <= j < k implies is_digit(#[trigger] f[j]) by {
        assert(f[j] == s[i + j]);
    }
    assert forall|j: int| k < j < f.len() implies is_digit(#[trigger] f[j]) by {
        assert(f[j] == s[d + 1 + (j - k - 1)]);
    }
    lemma_is_float(f, k);
    lemma_dot_place(f, k);
    assert(f.subrange(0, k) =~= w2);
    assert(f.subrange(k + 1, f.len() as int) =~= p2);
    assert(lead_zeros(w2, 0) == 0) by {
        if w2.len() > 1 {
            assert(w2[0] == whole[i]);
        }
    }
    assert(trail_zeros(p2, p2.len() as int) == p2.len()) by {
        if p2.len() > 1 {
            assert(p2[p2.len() - 1] == part[e - 1]);
        }
    }
    assert(w2.subrange(0, w2.len() as int) =~= w2);
    assert(p2.subrange(0, p2.len() as int) =~= p2);
    k
}

proof fn lemma_canon(t: TokenView)
    requires
        valid(t),
    ensures
        valid(canon(t)),
        token_text(canon(t)) == token_text(t),
        canon(canon(t)) == canon(t),
{
    if let TokenView::Float(s) = t {
        let k = lemma_float_text(s);
    }
}

/// The characters of the marks.
proof fn lemma_mark_texts()
    ensures
        sym_text(Sym::Assign) =~= seq!['='],
        sym_text(Sym::Eq) =~= seq!['=', '='],
        sym_text(Sym::NotEq) =~= seq!['!', '='],
        sym_text(Sym::Bang) =~= seq!['!'],
        sym_text(Sym::Colon) =~= seq![':'],
        sym_text(Sym::Question) =~= seq!['?'],
        sym_text(Sym::Comma) =~= seq![','],
        sym_text(Sym::Dot) =~= seq!['.'],
        sym_text(Sym::DotDot) =~= seq!['.', '.'],
        sym_text(Sym::Arrow) =~= seq!['-', '>'],
        sym_text(Sym::Plus) =~= seq!['+'],
        sym_text(Sym::Minus) =~= seq!['-'],
        sym_text(Sym::Star) =~= seq!['*'],
        sym_text(Sym::Slash) =~= seq!['/'],
        sym_text(Sym::LAngle) =~= seq!['<'],
        sym_text(Sym::RAngle) =~= seq!['>'],
        sym_text(Sym::LtEq) =~= seq!['<', '='],
        sym_text(Sym::GtEq) =~= seq!['>', '='],
        sym_text(Sym::And) =~= seq!['&', '&'],
        sym_text(Sym::Or) =~= seq!['|', '|'],
        sym_text(Sym::LBrace) =~= seq!['{'],
        sym_text(Sym::RBrace) =~= seq!['}'],
        sym_text(Sym::LParen) =~= seq!['('],
        sym_text(Sym::RParen) =~= seq![')'],
        sym_text(Sym::LBracket) =~= seq!['['],
        sym_text(Sym::RBracket) =~= seq![']'],
{
    reveal_strlit("=");
    reveal_strlit("==");
    reveal_strlit("!=");
    reveal_strlit("!");
    reveal_strlit(":");
    reveal_strlit("?");
    reveal_strlit(",");
    reveal_strlit(".");
    reveal_strlit("..");
    reveal_strlit("->");
    reveal_strlit("+");
    reveal_strlit("-");
    reveal_strlit("*");
    reveal_strlit("/");
    reveal_strlit("<");
    reveal_strlit(">");
    reveal_strlit("<=");
    reveal_strlit(">=");
    reveal_strlit("&&");
    reveal_strlit("||");
    reveal_strlit("{");
    reveal_strlit("}");
    reveal_strlit("(");
    reveal_strlit(")");
    reveal_strlit("[");
    reveal_strlit("]");
}

/// What a token's spelling starts and ends with.
proof fn lemma_token_shape(t: TokenView)
    requires
        valid(t),
    ensures
        token_text(t).len() > 0,
        !char_is_space(token_text(t)[0]),
        !char_is_space(token_text(t).last()),
        is_word(t) == (word_char(token_text(t)[0]) && !is_digit(token_text(t)[0])),
        is_numeral(t) == is_digit(token_text(t)[0]),
        starts_equal(t) == (token_text(t)[0] == '='),
        (t == TokenView::Sym(Sym::Dot) || t == TokenView::Sym(Sym::DotDot)) == (token_text(t)[0]
            == '.'),
        (t == TokenView::Sym(Sym::RAngle) || t == TokenView::Sym(Sym::GtEq)) == (token_text(t)[0]
            == '>'),
        (t == TokenView::Sym(Sym::Slash) || t is Comment) == (token_text(t)[0] == '/'),
        (t == TokenView::Sym(Sym::And) || t == TokenView::Illegal('&')) == (token_text(t)[0] == '&'),
        (t == TokenView::Sym(Sym::Or) || t == TokenView::Illegal('|')) == (token_text(t)[0] == '|'),
        t == TokenView::Sym(Sym::Dot) ==> token_text(t).len() == 1,
        t == TokenView::Sym(Sym::DotDot) ==> token_text(t).len() == 2 && token_text(t)[1] == '.',
{
    match t {
        TokenView::Identifier(w) => {
            assert(word_char(w[0]));
            assert(word_char(w[w.len() - 1]));
        },
        TokenView::Int(n) => {
            law_nat_text_reads_back(n as nat);
            let x = nat_text(n as nat);
            assert(is_digit(x[0]));
            assert(is_digit(x[x.len() - 1]));
        },
        TokenView::Float(s) => {
            let k = lemma_float_text(s);
            let f = float_text(s);
            assert(is_digit(f[0]));
            assert(is_digit(f[f.len() - 1]));
        },
        TokenView::Str(s) => {
            reveal_strlit("\"");
        },
        TokenView::Comment(s) => {},
        TokenView::Illegal(c) => {},
        TokenView::Sym(s) => {
            if is_word_sym(s) {
                lemma_keyword_reads(s);
                let w = sym_text(s);
                assert(word_char(w[w.len() - 1]));
            } else {
                lemma_mark_texts();
            }
        },
    }
}

/// Whether a text stands in another at a place.
spec fn stands(r: Seq<char>, q: int, w: Seq<char>) -> bool {
    &&& 0 <= q
    &&& q + w.len() <= r.len()
    &&& forall|i: int| 0 <= i < w.len() ==> r[q + i] == #[trigger] w[i]
}

proof fn lemma_word_run(r: Seq<char>, q: int, w: Seq<char>, x: int)
    requires
        stands(r, q, w),
        0 <= x <= w.len(),
        all_word(w),
        !word_char(chr(r, q + w.len())),
    ensures
        word_end(r, q + x) == q + w.len(),
    decreases w.len() - x,
{
    if x < w.len() {
        assert(word_char(w[x]));
        assert(r[q + x] == w[x]);
        lemma_word_run(r, q, w, x + 1);
    }
}

proof fn lemma_digit_run(r: Seq<char>, q: int, w: Seq<char>, x: int)
    requires
        stands(r, q, w),
        0 <= x <= w.len(),
        forall|i: int| 0 <= i < w.len() ==> is_digit(#[trigger] w[i]),
        !is_digit(chr(r, q + w.len())),
    ensures
        digits_end(r, q + x) == q + w.len(),
    decreases w.len() - x,
{
    if x < w.len() {
        assert(is_digit(w[x]));
        assert(r[q + x] == w[x]);
        lemma_digit_run(r, q, w, x + 1);
    }
}

proof fn lemma_quote_run(r: Seq<char>, q: int, w: Seq<char>, x: int)
    requires
        stands(r, q, w),
        0 <= x <= w.len(),
        forall|i: int| 0 <= i < w.len() ==> #[trigger] w[i] != '"' && w[i] != '\0',
        chr(r, q + w.len()) == '"',
    ensures
        quote_end(r, q + x) == q + w.len(),
    decreases w.len() - x,
{
    if x < w.len() {
        assert(w[x] != '"' && w[x] != '\0');
        assert(r[q + x] == w[x]);
        lemma_quote_run(r, q, w, x + 1);
    }
}

proof fn lemma_line_run(r: Seq<char>, q: int, w: Seq<char>, x: int)
    requires
        stands(r, q, w),
        0 <= x <= w.len(),
        forall|i: int| 0 <= i < w.len() ==> #[trigger] w[i] != '\n' && w[i] != '\0',
        chr(r, q + w.len()) == '\n',
    ensures
        line_end(r, q + x) == q + w.len(),
    decreases w.len() - x,
{
    if x < w.len() {
        assert(w[x] != '\n' && w[x] != '\0');
        assert(r[q + x] == w[x]);
        lemma_line_run(r, q, w, x + 1);
    }
}

proof fn lemma_stands_subrange(r: Seq<char>, q: int, w: Seq<char>)
    requires
        stands(r, q, w),
    ensures
        r.subrange(q, q + w.len()) == w,
{
    assert(r.subrange(q, q + w.len()) =~= w);
}

proof fn lemma_word_reads(r: Seq<char>, q: int, t: TokenView)
    requires
        valid(t),
        is_word(t),
        stands(r, q, token_text(t)),
        !word_char(chr(r, q + token_text(t).len())),
    ensures
        plain_token(r, q) == (Lexed { token: t, start: q, end: q + token_text(t).len() }),
        chr(r, q) != '/',
{
    let w = token_text(t);
    lemma_token_shape(t);
    lemma_stands_subrange(r, q, w);
    assert(r[q + 0] == w[0]);
    match t {
        TokenView::Sym(s) => {
            lemma_keyword_reads(s);
        },
        _ => {},
    }
    lemma_word_run(r, q, w, 0);
    assert(char_is_alpha(w[0]) || w[0] == '_');
    assert(word_at(r, q) == (Lexed { token: t, start: q, end: q + w.len() }));
}

proof fn lemma_int_reads(r: Seq<char>, q: int, n: int)
    requires
        0 <= n <= i64::MAX,
        stands(r, q, int_text(n)),
        !is_digit(chr(r, q + int_text(n).len())),
        !(chr(r, q + int_text(n).len()) == '.' && is_digit(chr(r, q + int_text(n).len() + 1))),
    ensures
        plain_token(r, q) == (Lexed {
            token: TokenView::Int(n),
            start: q,
            end: q + int_text(n).len(),
        }),
        chr(r, q) != '/',
{
    law_nat_text_reads_back(n as nat);
    let w = nat_text(n as nat);
    assert(int_text(n) == w);
    lemma_stands_subrange(r, q, w);
    assert(r[q + 0] == w[0]);
    assert(is_digit(w[0]));
    lemma_digit_run(r, q, w, 0);
    assert(number_at(r, q) == (Lexed { token: TokenView::Int(n), start: q, end: q + w.len() }));
}

proof fn lemma_float_reads(r: Seq<char>, q: int, s: Seq<char>)
    requires
        is_float(s),
        stands(r, q, float_text(s)),
        !is_digit(chr(r, q + float_text(s).len())),
    ensures
        plain_token(r, q) == (Lexed {
            token: TokenView::Float(float_text(s)),
            start: q,
            end: q + float_text(s).len(),
        }),
        chr(r, q) != '/',
{
    let f = float_text(s);
    let k = lemma_float_text(s);
    lemma_stands_subrange(r, q, f);
    assert(r[q + 0] == f[0]);
    assert(is_digit(f[0]));
    let a = f.subrange(0, k);
    assert(stands(r, q, a)) by {
        assert forall|i: int| 0 <= i < a.len() implies r[q + i] == #[trigger] a[i] by {
            assert(a[i] == f[i]);
        }
    }
    assert(r[q + k] == f[k]);
    assert forall|i: int| 0 <= i < a.len() implies is_digit(#[trigger] a[i]) by {
        assert(a[i] == f[i]);
    }
    lemma_digit_run(r, q, a, 0);
    let b = f.subrange(k + 1, f.len() as int);
    assert(stands(r, q + k + 1, b)) by {
        assert forall|i: int| 0 <= i < b.len() implies r[q + k + 1 + i] == #[trigger] b[i] by {
            assert(b[i] == f[k + 1 + i]);
            assert(r[q + (k + 1 + i)] == f[k + 1 + i]);
        }
    }
    assert forall|i: int| 0 <= i < b.len() implies is_digit(#[trigger] b[i]) by {
        assert(b[i] == f[k + 1 + i]);
    }
    assert(r[q + (k + 1)] == f[k + 1]);
    assert(is_digit(f[k + 1]));
    lemma_digit_run(r, q + k + 1, b, 0);
}

proof fn lemma_mark_reads(r: Seq<char>, q: int, s: Sym)
    requires
        s != Sym::EOF,
        !is_word_sym(s),
        stands(r, q, sym_text(s)),
        apart(TokenView::Sym(s), chr(r, q + sym_text(s).len()), chr(r, q + sym_text(s).len() + 1)),
    ensures
        plain_token(r, q) == (Lexed {
            token: TokenView::Sym(s),
            start: q,
            end: q + sym_text(s).len(),
        }),
        !(chr(r, q) == '/' && chr(r, q + 1) == '/'),
{
    lemma_mark_texts();
    let w = sym_text(s);
    assert(r[q + 0] == w[0]);
    if w.len() == 2 {
        assert(r[q + 1] == w[1]);
    }
}

proof fn lemma_trim_back_none(s: Seq<char>)
    requires
        s.len() > 0,
        !char_is_space(s.last()),
    ensures
        trim_back(s) == s,
{
}

/// A token is read back from its canonical spelling, where what follows keeps it apart.
proof fn lemma_lex_token(r: Seq<char>, p: int, q: int, t: TokenView)
    requires
        valid(t),
        0 <= p,
        skip_space(r, p) == q,
        stands(r, q, token_text(t)),
        apart(t, chr(r, q + token_text(t).len()), chr(r, q + token_text(t).len() + 1)),
    ensures
        lex_at(r, p, true) == (Lexed {
            token: canon(t),
            start: q,
            end: q + token_text(t).len(),
        }),
{
    let w = token_text(t);
    if is_word(t) {
        lemma_word_reads(r, q, t);
    } else {
        match t {
            TokenView::Int(n) => {
                lemma_int_reads(r, q, n);
            },
            TokenView::Float(s) => {
                lemma_float_reads(r, q, s);
            },
            TokenView::Str(s) => {
                reveal_strlit("\"");
                assert(w[0] == '"');
                assert(r[q + 0] == w[0]);
                assert(w[w.len() - 1] == '"');
                assert(r[q + (w.len() - 1)] == w[w.len() - 1]);
                assert(stands(r, q + 1, s)) by {
                    assert forall|i: int| 0 <= i < s.len() implies r[q + 1 + i] == #[trigger] s[i] by {
                        assert(w[1 + i] == s[i]);
                        assert(r[q + (1 + i)] == w[1 + i]);
                    }
                }
                lemma_quote_run(r, q + 1, s, 0);
                lemma_stands_subrange(r, q + 1, s);
            },
            TokenView::Comment(s) => {
                assert(r[q + 0] == s[0]);
                assert(r[q + 1] == s[1]);
                lemma_line_run(r, q, s, 0);
                lemma_stands_subrange(r, q, s);
                lemma_trim_back_none(s);
            },
            TokenView::Illegal(c) => {
                assert(r[q + 0] == w[0]);
            },
            TokenView::Sym(s) => {
                lemma_mark_reads(r, q, s);
            },
            TokenView::Identifier(_) => {},
        }
    }
}

proof fn lemma_word_chars(s: Seq<char>, p: int)
    requires
        0 <= p <= s.len(),
    ensures
        p <= word_end(s, p) <= s.len(),
        forall|i: int| p <= i < word_end(s, p) ==> word_char(#[trigger] s[i]),
        p < s.len() && word_char(s[p]) ==> word_end(s, p) > p,
    decreases s.len() - p,
{
    if p < s.len() && word_char(s[p]) {
        lemma_word_chars(s, p + 1);
    }
}

proof fn lemma_quote_chars(s: Seq<char>, p: int)
    requires
        0 <= p <= s.len(),
    ensures
        p <= quote_end(s, p) <= s.len(),
        forall|i: int| p <= i < quote_end(s, p) ==> #[trigger] s[i] != '"' && s[i] != '\0',
    decreases s.len() - p,
{
    if chr(s, p) != '"' && chr(s, p) != '\0' {
        lemma_quote_chars(s, p + 1);
    }
}

proof fn lemma_line_chars(s: Seq<char>, p: int)
    requires
        0 <= p <= s.len(),
    ensures
        p <= line_end(s, p) <= s.len(),
        forall|i: int| p <= i < line_end(s, p) ==> #[trigger] s[i] != '\n' && s[i] != '\0',
        chr(s, line_end(s, p)) == '\n' || chr(s, line_end(s, p)) == '\0',
    decreases s.len() - p,
{
    if chr(s, p) != '\n' && chr(s, p) != '\0' {
        lemma_line_chars(s, p + 1);
    }
}

proof fn lemma_trim_back(s: Seq<char>, k: int)
    requires
        0 < k <= s.len(),
        !char_is_space(s[k - 1]),
    ensures
        k <= trim_back(s).len() <= s.len(),
        trim_back(s) == s.take(trim_back(s).len() as int),
        !char_is_space(trim_back(s).last()),
    decreases s.len(),
{
    if char_is_space(s.last()) {
        assert(s.drop_last()[k - 1] == s[k - 1]);
        lemma_trim_back(s.drop_last(), k);
        assert(s.drop_last().take(trim_back(s).len() as int) =~= s.take(trim_back(s).len() as int));
    } else {
        assert(s.take(s.len() as int) =~= s);
    }
}

proof fn lemma_number_valid(s: Seq<char>, p: int)
    requires
        0 <= p < s.len(),
        is_digit(s[p]),
    ensures
        valid(number_at(s, p).token),
{
    crate::lexer::lemma_digits_end(s, p);
    let e = digits_end(s, p);
    assert(e > p) by {
        crate::lexer::lemma_digits_end(s, p + 1);
    }
    if chr(s, e) == '.' && is_digit(chr(s, e + 1)) {
        crate::lexer::lemma_digits_end(s, e + 1);
        let f = digits_end(s, e + 1);
        assert(f > e + 1) by {
            crate::lexer::lemma_digits_end(s, e + 2);
        }
        let t = s.subrange(p, f);
        assert(float_at(t, e - p)) by {
            assert forall|i: int| 0 <= i < e - p implies is_digit(#[trigger] t[i]) by {
                assert(t[i] == s[p + i]);
            }
            assert forall|i: int| e - p < i < t.len() implies is_digit(#[trigger] t[i]) by {
                assert(t[i] == s[p + i]);
            }
        }
        lemma_is_float(t, e - p);
    }
}

/// What is read from a source is a token that a source can hold.
proof fn lemma_lexed_valid(s: Seq<char>, p: int)
    requires
        0 <= p <= s.len(),
        lex_at(s, p, true).token != TokenView::Sym(Sym::EOF),
    ensures
        valid(lex_at(s, p, true).token),
{
    lemma_skip_space(s, p);
    let q = skip_space(s, p);
    assert(q < s.len()) by {
        if q >= s.len() {
            assert(chr(s, q) == '\0');
        }
    }
    let c = chr(s, q);
    if c == '/' && chr(s, q + 1) == '/' {
        lemma_line_chars(s, q);
        let e = line_end(s, q);
        assert(e >= q + 2) by {
            lemma_line_chars(s, q + 2);
        }
        let raw = s.subrange(q, e);
        assert(raw[0] == s[q] && raw[1] == s[q + 1]);
        lemma_trim_back(raw, 2);
        let t = trim_back(raw);
        assert(t[0] == raw[0] && t[1] == raw[1]);
        assert forall|i: int| 0 <= i < t.len() implies #[trigger] t[i] != '\n' && t[i] != '\0' by {
            assert(t[i] == s[q + i]);
        }
    } else if c == '"' {
        lemma_quote_chars(s, q + 1);
        let e = quote_end(s, q + 1);
        let t = s.subrange(q + 1, e);
        assert forall|i: int| 0 <= i < t.len() implies #[trigger] t[i] != '"' && t[i] != '\0' by {
            assert(t[i] == s[q + 1 + i]);
        }
    } else if char_is_alpha(c) || c == '_' {
        lemma_word_chars(s, q);
        let e = word_end(s, q);
        let w = s.subrange(q, e);
        assert(w[0] == s[q]);
        assert forall|i: int| 0 <= i < w.len() implies word_char(#[trigger] w[i]) by {
            assert(w[i] == s[q + i]);
        }
    } else if is_digit(c) {
        lemma_number_valid(s, q);
    }
}

proof fn lemma_line_grows(s: Seq<char>, a: int, b: int)
    requires
        0 <= a <= b,
    ensures
        line_at(s, a) <= line_at(s, b),
    decreases b - a,
{
    if a < b {
        lemma_line_grows(s, a, b - 1);
    }
}

/// What follows a comment stands on a later line.
proof fn lemma_after_comment(s: Seq<char>, p: int)
    requires
        0 <= p <= s.len(),
        lex_at(s, p, true).token is Comment,
        lex_at(s, lex_at(s, p, true).end, true).token != TokenView::Sym(Sym::EOF),
    ensures
        line_at(s, lex_at(s, lex_at(s, p, true).end, true).start) > line_at(
            s,
            lex_at(s, p, true).start,
        ),
{
    lemma_skip_space(s, p);
    let q = skip_space(s, p);
    assert(chr(s, q) == '/' && chr(s, q + 1) == '/');
    lemma_line_chars(s, q);
    let e = line_end(s, q);
    lemma_skip_space(s, e);
    let y = skip_space(s, e);
    if chr(s, e) == '\0' {
        assert(y == e);
        assert(false);
    } else {
        assert(s[e] == '\n');
        lemma_skip_space(s, e + 1);
        assert(y == skip_space(s, e + 1));
        lemma_line_grows(s, q, e);
        lemma_line_grows(s, e + 1, y);
    }
}

/// The tokens of a source are tokens that a source can hold, and what follows a comment stands on a
/// later line.
proof fn lemma_source_tokens(s: Seq<char>, p: int)
    requires
        0 <= p,
    ensures
        forall|i: int|
            0 <= i < tokens_from(s, p).len() ==> valid((#[trigger] tokens_from(s, p)[i]).token),
        forall|i: int|
            0 < i < tokens_from(s, p).len() && tokens_from(s, p)[i - 1].token is Comment ==> (
            #[trigger] tokens_from(s, p)[i]).line > tokens_from(s, p)[i - 1].line,
        tokens_from(s, p).len() > 0 ==> p < s.len() && tokens_from(s, p)[0] == placed_at(s, p),
    decreases
            (if p < s.len() {
                s.len() - p
            } else {
                0
            }),
{
    let x = lex_at(s, p, true);
    let all = tokens_from(s, p);
    if x.token == TokenView::Sym(Sym::EOF) || p < 0 || p >= s.len() || x.end <= p {
    } else {
        let rest = tokens_from(s, x.end);
        lemma_source_tokens(s, x.end);
        lemma_lexed_valid(s, p);
        if rest.len() > 0 && x.token is Comment {
            lemma_after_comment(s, p);
        }
        assert(all =~= seq![placed_at(s, p)] + rest);
        assert forall|i: int| 0 <= i < all.len() implies valid((#[trigger] all[i]).token) by {
            if i > 0 {
                assert(all[i] == rest[i - 1]);
            }
        }
        assert forall|i: int| 0 < i < all.len() && all[i - 1].token is Comment implies (
        #[trigger] all[i]).line > all[i - 1].line by {
            assert(all[i] == rest[i - 1]);
            if i > 1 {
                assert(all[i - 1] == rest[i - 2]);
            }
        }
    }
}

/// Whether the tokens are all ones that a source can hold, and what follows a comment stands on a later
/// line.
pub open spec fn clean_tokens(toks: Seq<PlacedView>) -> bool {
    &&& forall|i: int| 0 <= i < toks.len() ==> valid((#[trigger] toks[i]).token)
    &&& forall|i: int|
        0 < i < toks.len() && toks[i - 1].token is Comment ==> (#[trigger] toks[i]).line > toks[i
            - 1].line
}

/// The state of the formatter in front of the `i`th token, its line begun.
pub open spec fn head_at(toks: Seq<PlacedView>, i: int) -> FmtView {
    fmt_head(fmt_run(toks, i), toks[i].token, toks[i].line, token_at(toks, i + 1))
}

/// Whether a line ends in front of the `i`th token.
pub open spec fn break_at(toks: Seq<PlacedView>, i: int) -> bool {
    breaks_before(fmt_run(toks, i), toks[i].token, toks[i].line, token_at(toks, i + 1)).0
}

/// What is written between two tokens.
pub open spec fn sep_at(toks: Seq<PlacedView>, i: int) -> Seq<char> {
    if break_at(toks, i) {
        "\n"@ + (if head_at(toks, i).cur.blank {
            "\n"@
        } else {
            ""@
        }) + indent_text(head_at(toks, i).cur.indent)
    } else if space_before(head_at(toks, i).spacing, toks[i].token) {
        " "@
    } else {
        ""@
    }
}

/// Whether a token is written directly behind the one in front of it.
pub open spec fn joined(toks: Seq<PlacedView>, i: int) -> bool {
    !break_at(toks, i) && !space_before(head_at(toks, i).spacing, toks[i].token)
}

/// What is written of the first `n` tokens.
pub open spec fn out_text(toks: Seq<PlacedView>, n: int) -> Seq<char>
    decreases n,
{
    if n <= 0 || n > toks.len() {
        Seq::empty()
    } else {
        out_text(toks, n - 1) + sep_at(toks, n - 1) + token_text(toks[n - 1].token)
    }
}

/// What a state of the formatter has written, the line that it is in among it.
spec fn written(st: FmtView) -> Seq<char> {
    render_text(st.lines, st.lines.len() as int) + (if st.cur.blank && st.lines.len() > 0 {
        "\n"@
    } else {
        ""@
    }) + indent_text(st.cur.indent) + st.cur.text
}

proof fn lemma_render_prefix(a: Seq<OutView>, b: Seq<OutView>, n: int)
    requires
        n <= a.len(),
        n <= b.len(),
        forall|i: int| 0 <= i < n ==> a[i] == b[i],
    ensures
        render_text(a, n) == render_text(b, n),
    decreases n,
{
    if n > 0 {
        lemma_render_prefix(a, b, n - 1);
    }
}

proof fn lemma_render_push(ls: Seq<OutView>, x: OutView)
    requires
        x.text.len() > 0,
        !char_is_space(x.text.last()),
    ensures
        render_text(ls.push(x), ls.len() as int + 1) == render_text(ls, ls.len() as int) + (
        if x.blank && ls.len() > 0 {
            "\n"@
        } else {
            ""@
        }) + indent_text(x.indent) + x.text + "\n"@,
{
    lemma_render_prefix(ls.push(x), ls, ls.len() as int);
    lemma_trim_back_none(x.text);
    assert(ls.push(x)[ls.len() as int] == x);
}

proof fn lemma_step_broken(st: FmtView, t: TokenView, line: nat, next: Option<TokenView>)
    requires
        valid(t),
        breaks_before(st, t, line, next).0,
        st.cur.text.len() > 0,
        !char_is_space(st.cur.text.last()),
    ensures
        ({
            let h = fmt_head(st, t, line, next);
            written(fmt_step(st, t, line, next)) == written(st) + ("\n"@ + (if h.cur.blank {
                "\n"@
            } else {
                ""@
            }) + indent_text(h.cur.indent)) + token_text(t)
        }),
        fmt_step(st, t, line, next).cur.text == token_text(t),
{
    let h = fmt_head(st, t, line, next);
    let e = fmt_emit(h, t, line);
    let w = token_text(t);
    reveal_strlit("");
    lemma_render_push(st.lines, st.cur);
    assert(h.lines == st.lines.push(st.cur));
    assert(h.lines.len() == st.lines.len() + 1);
    assert(h.cur.text == Seq::<char>::empty());
    assert(!space_before(h.spacing, t));
    assert(e.cur.text =~= w);
    let a = render_text(st.lines, st.lines.len() as int);
    let b = if st.cur.blank && st.lines.len() > 0 {
        "\n"@
    } else {
        ""@
    };
    let c = indent_text(st.cur.indent);
    let d = if h.cur.blank {
        "\n"@
    } else {
        ""@
    };
    let f = indent_text(h.cur.indent);
    assert(render_text(h.lines, h.lines.len() as int) == a + b + c + st.cur.text + "\n"@);
    assert(written(e) == a + b + c + st.cur.text + "\n"@ + d + f + w);
    assert(a + b + c + st.cur.text + "\n"@ + d + f + w =~= a + b + c + st.cur.text + ("\n"@ + d + f)
        + w);
}

proof fn lemma_step_kept(st: FmtView, t: TokenView, line: nat, next: Option<TokenView>)
    requires
        valid(t),
        !breaks_before(st, t, line, next).0,
        st.cur.text.len() > 0,
    ensures
        ({
            let h = fmt_head(st, t, line, next);
            let sep = if space_before(h.spacing, t) {
                " "@
            } else {
                ""@
            };
            &&& written(fmt_step(st, t, line, next)) == written(st) + sep + token_text(t)
            &&& fmt_step(st, t, line, next).cur.text == st.cur.text + sep + token_text(t)
        }),
{
    let h = fmt_head(st, t, line, next);
    let e = fmt_emit(h, t, line);
    let w = token_text(t);
    let sep = if space_before(h.spacing, t) {
        " "@
    } else {
        ""@
    };
    assert(h.cur == st.cur);
    assert(h.lines == st.lines);
    assert(e.cur.text == st.cur.text + sep + w);
    let a = render_text(st.lines, st.lines.len() as int);
    let b = if st.cur.blank && st.lines.len() > 0 {
        "\n"@
    } else {
        ""@
    };
    let c = indent_text(st.cur.indent);
    assert(written(e) == a + b + c + (st.cur.text + sep + w));
    assert(a + b + c + (st.cur.text + sep + w) =~= a + b + c + st.cur.text + sep + w);
}

proof fn lemma_step_first(t: TokenView, line: nat, next: Option<TokenView>)
    requires
        valid(t),
    ensures
        !breaks_before(fmt_start(), t, line, next).0,
        !space_before(fmt_head(fmt_start(), t, line, next).spacing, t),
        written(fmt_step(fmt_start(), t, line, next)) == token_text(t),
        fmt_step(fmt_start(), t, line, next).cur.text == token_text(t),
{
    reveal_strlit("");
    let st = fmt_start();
    let h = fmt_head(st, t, line, next);
    let e = fmt_emit(h, t, line);
    let w = token_text(t);
    assert(e.cur.text =~= w);
    assert(e.lines.len() == 0);
    assert(e.cur.indent == 0);
    assert(render_text(e.lines, 0) =~= Seq::<char>::empty());
    assert(indent_text(0) =~= Seq::<char>::empty());
    assert(written(e) =~= w);
}

/// What the formatter has written of the first `n` tokens.
proof fn lemma_written(toks: Seq<PlacedView>, n: int)
    requires
        clean_tokens(toks),
        0 <= n <= toks.len(),
    ensures
        written(fmt_run(toks, n)) == out_text(toks, n),
        n > 0 ==> fmt_run(toks, n).cur.text.len() > 0 && !char_is_space(
            fmt_run(toks, n).cur.text.last(),
        ),
    decreases n,
{
    if n == 0 {
        reveal_strlit("");
        assert(written(fmt_start()) =~= Seq::<char>::empty());
    } else {
        let i = n - 1;
        lemma_written(toks, i);
        let st = fmt_run(toks, i);
        let t = toks[i].token;
        let line = toks[i].line;
        let next = token_at(toks, i + 1);
        lemma_token_shape(t);
        let w = token_text(t);
        assert(fmt_run(toks, n) == fmt_step(st, t, line, next));
        if i == 0 {
            lemma_step_first(t, line, next);
            reveal_strlit("");
            assert(sep_at(toks, 0) == ""@);
            assert(out_text(toks, 0) =~= Seq::<char>::empty());
            assert(out_text(toks, n) =~= w);
        } else if break_at(toks, i) {
            lemma_step_broken(st, t, line, next);
        } else {
            lemma_step_kept(st, t, line, next);
            let x = fmt_run(toks, n).cur.text;
            assert(x.last() == w.last());
        }
    }
}

/// The formatter's output is what is written of all tokens, and a line end behind the last.
proof fn lemma_output(toks: Seq<PlacedView>)
    requires
        clean_tokens(toks),
    ensures
        ({
            let ls = fmt_lines(toks);
            render_text(ls, ls.len() as int) == (if toks.len() == 0 {
                Seq::empty()
            } else {
                out_text(toks, toks.len() as int) + "\n"@
            })
        }),
{
    let n = toks.len() as int;
    lemma_written(toks, n);
    let st = fmt_run(toks, n);
    if n > 0 {
        lemma_render_push(st.lines, st.cur);
    } else {
        assert(fmt_lines(toks) =~= Seq::<OutView>::empty());
    }
}

/// Behind a comment a line ends.
proof fn lemma_break_after_comment(toks: Seq<PlacedView>, i: int)
    requires
        clean_tokens(toks),
        0 < i < toks.len(),
        toks[i - 1].token is Comment,
    ensures
        break_at(toks, i),
{
    lemma_written(toks, i);
    let st = fmt_run(toks, i);
    assert(st.prev_end == toks[i - 1].line);
    assert(toks[i].line > toks[i - 1].line);
}

/// Whether no two tokens that are written without white space between them read as something else.
pub open spec fn keeps_apart(toks: Seq<PlacedView>) -> bool {
    &&& forall|i: int|
        0 < i < toks.len() && #[trigger] joined(toks, i) ==> !glue(
            toks[i - 1].token,
            toks[i].token,
        )
    &&& forall|i: int|
        0 < i < toks.len() - 1 && #[trigger] joined(toks, i) && joined(toks, i + 1)
            && toks[i - 1].token is Int && toks[i].token == TokenView::Sym(Sym::Dot)
            ==> !is_numeral(toks[i + 1].token)
}

/// The spacing state in front of a token that stands on the line of the one in front of it.
proof fn lemma_spacing(toks: Seq<PlacedView>, i: int)
    requires
        0 < i < toks.len(),
        !break_at(toks, i),
    ensures
        head_at(toks, i).spacing == line_step(head_at(toks, i - 1).spacing, toks[i - 1].token),
{
    assert(fmt_run(toks, i) == fmt_emit(
        head_at(toks, i - 1),
        toks[i - 1].token,
        toks[i - 1].line,
    ));
}

/// The formatter keeps apart what would read as something else.
proof fn lemma_keeps_apart(toks: Seq<PlacedView>)
    ensures
        keeps_apart(toks),
{
    assert forall|i: int| 0 < i < toks.len() && #[trigger] joined(toks, i) implies !glue(
        toks[i - 1].token,
        toks[i].token,
    ) by {
        lemma_spacing(toks, i);
    }
    assert forall|i: int|
        0 < i < toks.len() - 1 && #[trigger] joined(toks, i) && joined(toks, i + 1)
            && toks[i - 1].token is Int && toks[i].token == TokenView::Sym(
            Sym::Dot,
        ) implies !is_numeral(toks[i + 1].token) by {
        lemma_spacing(toks, i);
        lemma_spacing(toks, i + 1);
    }
}

/// What the formatter writes of tokens.
spec fn printed(toks: Seq<PlacedView>) -> Seq<char> {
    out_text(toks, toks.len() as int) + "\n"@
}

/// Where the white space in front of the `i`th token starts.
spec fn gap_of(toks: Seq<PlacedView>, i: int) -> int {
    out_text(toks, i).len() as int
}

/// Where the `i`th token starts.
spec fn start_of(toks: Seq<PlacedView>, i: int) -> int {
    out_text(toks, i).len() as int + sep_at(toks, i).len()
}

proof fn lemma_out_prefix(toks: Seq<PlacedView>, i: int, n: int)
    requires
        0 <= i <= n <= toks.len(),
    ensures
        out_text(toks, i).len() <= out_text(toks, n).len(),
        forall|k: int|
            0 <= k < out_text(toks, i).len() ==> #[trigger] out_text(toks, n)[k] == out_text(
                toks,
                i,
            )[k],
    decreases n - i,
{
    if i < n {
        lemma_out_prefix(toks, i, n - 1);
        let a = out_text(toks, n - 1);
        assert forall|k: int| 0 <= k < out_text(toks, i).len() implies #[trigger] out_text(
            toks,
            n,
        )[k] == out_text(toks, i)[k] by {
            assert(out_text(toks, n)[k] == a[k]);
        }
    }
}

proof fn lemma_layout(toks: Seq<PlacedView>, i: int)
    requires
        clean_tokens(toks),
        0 <= i < toks.len(),
    ensures
        stands(printed(toks), gap_of(toks, i), sep_at(toks, i)),
        stands(printed(toks), start_of(toks, i), token_text(toks[i].token)),
        gap_of(toks, i + 1) == start_of(toks, i) + token_text(toks[i].token).len(),
        gap_of(toks, i + 1) < printed(toks).len(),
        i + 1 == toks.len() ==> chr(printed(toks), gap_of(toks, i + 1)) == '\n' && printed(
            toks,
        ).len() == gap_of(toks, i + 1) + 1,
{
    reveal_strlit("\n");
    let n = toks.len() as int;
    let r = printed(toks);
    let a = out_text(toks, i);
    let b = sep_at(toks, i);
    let w = token_text(toks[i].token);
    let o = out_text(toks, i + 1);
    assert(o == a + b + w);
    lemma_out_prefix(toks, i + 1, n);
    assert forall|k: int| 0 <= k < o.len() implies r[k] == #[trigger] o[k] by {
        assert(out_text(toks, n)[k] == o[k]);
    }
    assert forall|k: int| 0 <= k < b.len() implies r[gap_of(toks, i) + k] == #[trigger] b[k] by {
        assert(o[a.len() + k] == b[k]);
    }
    assert forall|k: int| 0 <= k < w.len() implies r[start_of(toks, i) + k] == #[trigger] w[k] by {
        assert(o[a.len() + b.len() + k] == w[k]);
    }
}

proof fn lemma_indent(n: nat)
    ensures
        forall|i: int| 0 <= i < indent_text(n).len() ==> #[trigger] indent_text(n)[i] == ' ',
    decreases n,
{
    reveal_strlit("  ");
    if n > 0 {
        lemma_indent((n - 1) as nat);
        let a = indent_text((n - 1) as nat);
        assert forall|i: int| 0 <= i < indent_text(n).len() implies #[trigger] indent_text(n)[i]
            == ' ' by {
            if i < a.len() {
                assert(indent_text(n)[i] == a[i]);
            } else {
                assert(indent_text(n)[i] == "  "@[i - a.len()]);
            }
        }
    }
}

proof fn lemma_sep(toks: Seq<PlacedView>, i: int)
    ensures
        forall|k: int| 0 <= k < sep_at(toks, i).len() ==> char_is_space(#[trigger] sep_at(toks, i)[k]),
        break_at(toks, i) ==> sep_at(toks, i).len() > 0 && sep_at(toks, i)[0] == '\n',
        joined(toks, i) == (sep_at(toks, i).len() == 0),
        !break_at(toks, i) && !joined(toks, i) ==> sep_at(toks, i) == seq![' '],
{
    reveal_strlit("\n");
    reveal_strlit("");
    reveal_strlit(" ");
    let x = sep_at(toks, i);
    if break_at(toks, i) {
        lemma_indent(head_at(toks, i).cur.indent);
        let d = if head_at(toks, i).cur.blank {
            "\n"@
        } else {
            ""@
        };
        let f = indent_text(head_at(toks, i).cur.indent);
        assert(x == "\n"@ + d + f);
        assert forall|k: int| 0 <= k < x.len() implies char_is_space(#[trigger] x[k]) by {
            if k >= 1 + d.len() {
                assert(x[k] == f[k - 1 - d.len()]);
            }
        }
    } else if !joined(toks, i) {
        assert(x =~= seq![' ']);
    }
}

proof fn lemma_skip_run(r: Seq<char>, p: int, q: int)
    requires
        0 <= p <= q,
        q <= r.len(),
        forall|i: int| p <= i < q ==> char_is_space(#[trigger] r[i]),
        q < r.len() ==> !char_is_space(r[q]),
    ensures
        skip_space(r, p) == q,
    decreases q - p,
{
    if p < q {
        assert(char_is_space(r[p]));
        lemma_skip_run(r, p + 1, q);
    }
}

/// The character behind the `i`th token: white space, or the first of the next token where it is
/// written directly behind.
proof fn lemma_char_behind(toks: Seq<PlacedView>, i: int)
    requires
        clean_tokens(toks),
        0 <= i < toks.len(),
    ensures
        ({
            let c = chr(printed(toks), gap_of(toks, i + 1));
            if i + 1 < toks.len() && joined(toks, i + 1) {
                c == token_text(toks[i + 1].token)[0]
            } else {
                (c == ' ' || c == '\n') && (toks[i].token is Comment ==> c == '\n')
            }
        }),
{
    lemma_layout(toks, i);
    if i + 1 < toks.len() {
        lemma_layout(toks, i + 1);
        lemma_sep(toks, i + 1);
        lemma_token_shape(toks[i + 1].token);
        let r = printed(toks);
        let g = gap_of(toks, i + 1);
        let b = sep_at(toks, i + 1);
        if joined(toks, i + 1) {
            let w = token_text(toks[i + 1].token);
            assert(r[start_of(toks, i + 1) + 0] == w[0]);
        } else {
            assert(r[g + 0] == b[0]);
            if toks[i].token is Comment {
                lemma_break_after_comment(toks, i + 1);
            }
        }
    }
}

proof fn lemma_apart(toks: Seq<PlacedView>, i: int)
    requires
        clean_tokens(toks),
        keeps_apart(toks),
        0 <= i < toks.len(),
    ensures
        apart(
            toks[i].token,
            chr(printed(toks), gap_of(toks, i + 1)),
            chr(printed(toks), gap_of(toks, i + 1) + 1),
        ),
{
    let t = toks[i].token;
    lemma_char_behind(toks, i);
    if i + 1 < toks.len() && joined(toks, i + 1) {
        let c = toks[i + 1].token;
        lemma_token_shape(c);
        assert(!glue(t, c));
        if t is Comment {
            lemma_break_after_comment(toks, i + 1);
        }
        if t is Int && token_text(c)[0] == '.' {
            lemma_layout(toks, i + 1);
            lemma_sep(toks, i + 1);
            let r = printed(toks);
            let w = token_text(c);
            assert(start_of(toks, i + 1) == gap_of(toks, i + 1));
            if c == TokenView::Sym(Sym::Dot) {
                assert(gap_of(toks, i + 2) == gap_of(toks, i + 1) + 1);
                lemma_char_behind(toks, i + 1);
                if i + 2 < toks.len() && joined(toks, i + 2) {
                    lemma_token_shape(toks[i + 2].token);
                    assert(joined(toks, i + 1));
                    assert(!is_numeral(toks[i + 2].token));
                }
            } else {
                assert(r[start_of(toks, i + 1) + 1] == w[1]);
            }
        }
    }
}

/// The tokens that the formatter's output is read as.
spec fn reread(toks: Seq<PlacedView>) -> Seq<PlacedView> {
    Seq::new(
        toks.len(),
        |i: int|
            PlacedView {
                token: canon(toks[i].token),
                line: line_at(printed(toks), start_of(toks, i)),
            },
    )
}

proof fn lemma_reread_one(toks: Seq<PlacedView>, i: int)
    requires
        clean_tokens(toks),
        keeps_apart(toks),
        0 <= i < toks.len(),
    ensures
        lex_at(printed(toks), gap_of(toks, i), true) == (Lexed {
            token: canon(toks[i].token),
            start: start_of(toks, i),
            end: gap_of(toks, i + 1),
        }),
        gap_of(toks, i) < gap_of(toks, i + 1),
{
    let r = printed(toks);
    let t = toks[i].token;
    let w = token_text(t);
    lemma_layout(toks, i);
    lemma_sep(toks, i);
    lemma_token_shape(t);
    let g = gap_of(toks, i);
    let b = sep_at(toks, i);
    let q = start_of(toks, i);
    assert forall|k: int| g <= k < q implies char_is_space(#[trigger] r[k]) by {
        assert(r[g + (k - g)] == b[k - g]);
    }
    assert(r[q + 0] == w[0]);
    lemma_skip_run(r, g, q);
    lemma_apart(toks, i);
    lemma_lex_token(r, g, q, t);
}

proof fn lemma_tokens_step(r: Seq<char>, g: int, x: Lexed)
    requires
        lex_at(r, g, true) == x,
        x.token != TokenView::Sym(Sym::EOF),
        0 <= g < r.len(),
        x.end > g,
    ensures
        tokens_from(r, g) == seq![PlacedView { token: x.token, line: line_at(r, x.start) }]
            + tokens_from(r, x.end),
{
}

proof fn lemma_tokens_end(r: Seq<char>, g: int)
    requires
        0 <= g,
        g + 1 == r.len(),
        r[g] == '\n',
    ensures
        tokens_from(r, g) == Seq::<PlacedView>::empty(),
{
    lemma_skip_run(r, g, g + 1);
    assert(chr(r, g + 1) == '\0');
    assert(plain_token(r, g + 1) == mark(Sym::EOF, g + 1, 1));
    assert(lex_at(r, g, true) == plain_token(r, g + 1));
}

/// The formatter's output is read as the tokens that it was written from.
proof fn lemma_reread(toks: Seq<PlacedView>, i: int)
    requires
        clean_tokens(toks),
        keeps_apart(toks),
        0 <= i <= toks.len(),
        toks.len() > 0,
    ensures
        tokens_from(printed(toks), gap_of(toks, i)) == reread(toks).subrange(i, toks.len() as int),
    decreases toks.len() - i,
{
    let n = toks.len() as int;
    let r = printed(toks);
    let all = reread(toks);
    if i == n {
        lemma_layout(toks, n - 1);
        lemma_tokens_end(r, gap_of(toks, n));
        assert(all.subrange(n, n) =~= Seq::<PlacedView>::empty());
    } else {
        lemma_reread_one(toks, i);
        lemma_layout(toks, i);
        lemma_reread(toks, i + 1);
        lemma_canon(toks[i].token);
        let x = Lexed {
            token: canon(toks[i].token),
            start: start_of(toks, i),
            end: gap_of(toks, i + 1),
        };
        lemma_tokens_step(r, gap_of(toks, i), x);
        assert(all[i] == (PlacedView { token: x.token, line: line_at(r, x.start) }));
        assert(all.subrange(i, n) =~= seq![all[i]] + all.subrange(i + 1, n));
    }
}

proof fn lemma_breaks_concat(a: Seq<char>, b: Seq<char>)
    ensures
        breaks_in(a + b) == breaks_in(a) + breaks_in(b),
    decreases b.len(),
{
    if b.len() == 0 {
        assert(a + b =~= a);
    } else {
        lemma_breaks_concat(a, b.drop_last());
        assert((a + b).drop_last() =~= a + b.drop_last());
        assert((a + b).last() == b.last());
    }
}

proof fn lemma_no_breaks(w: Seq<char>)
    requires
        forall|i: int| 0 <= i < w.len() ==> #[trigger] w[i] != '\n',
    ensures
        breaks_in(w) == 0,
    decreases w.len(),
{
    if w.len() > 0 {
        assert(w[w.len() - 1] != '\n');
        assert forall|i: int| 0 <= i < w.drop_last().len() implies #[trigger] w.drop_last()[i]
            != '\n' by {
            assert(w.drop_last()[i] == w[i]);
        }
        lemma_no_breaks(w.drop_last());
    }
}

proof fn lemma_line_span(r: Seq<char>, p: int, w: Seq<char>)
    requires
        stands(r, p, w),
    ensures
        line_at(r, p + w.len()) == line_at(r, p) + breaks_in(w),
    decreases w.len(),
{
    if w.len() > 0 {
        let v = w.drop_last();
        assert forall|i: int| 0 <= i < v.len() implies r[p + i] == #[trigger] v[i] by {
            assert(v[i] == w[i]);
        }
        lemma_line_span(r, p, v);
        assert(r[p + (w.len() - 1)] == w[w.len() - 1]);
    }
}

/// How many line breaks a token's spelling holds.
spec fn breaks_of(t: TokenView) -> nat {
    match t {
        TokenView::Str(s) => breaks_in(s),
        _ => 0,
    }
}

proof fn lemma_token_breaks(t: TokenView)
    requires
        valid(t),
    ensures
        breaks_in(token_text(t)) == breaks_of(t),
{
    let w = token_text(t);
    match t {
        TokenView::Str(s) => {
            reveal_strlit("\"");
            lemma_breaks_concat("\""@, s);
            lemma_breaks_concat("\""@ + s, "\""@);
            lemma_no_breaks("\""@);
        },
        TokenView::Int(n) => {
            law_nat_text_reads_back(n as nat);
            assert forall|i: int| 0 <= i < w.len() implies #[trigger] w[i] != '\n' by {
                assert(is_digit(w[i]));
            }
            lemma_no_breaks(w);
        },
        TokenView::Float(s) => {
            let k = lemma_float_text(s);
            assert forall|i: int| 0 <= i < w.len() implies #[trigger] w[i] != '\n' by {
                if i != k {
                    assert(is_digit(w[i]));
                }
            }
            lemma_no_breaks(w);
        },
        TokenView::Identifier(x) => {
            assert forall|i: int| 0 <= i < w.len() implies #[trigger] w[i] != '\n' by {
                assert(word_char(w[i]));
            }
            lemma_no_breaks(w);
        },
        TokenView::Comment(x) => {
            lemma_no_breaks(w);
        },
        TokenView::Illegal(c) => {
            assert(char_is_space('\n'));
            lemma_no_breaks(w);
        },
        TokenView::Sym(x) => {
            if is_word_sym(x) {
                lemma_keyword_reads(x);
                assert forall|i: int| 0 <= i < w.len() implies #[trigger] w[i] != '\n' by {
                    assert(word_char(w[i]));
                }
            } else {
                lemma_mark_texts();
            }
            lemma_no_breaks(w);
        },
    }
}

proof fn lemma_sep_breaks(toks: Seq<PlacedView>, i: int)
    ensures
        breaks_in(sep_at(toks, i)) == (if break_at(toks, i) {
            if head_at(toks, i).cur.blank {
                2nat
            } else {
                1nat
            }
        } else {
            0nat
        }),
{
    reveal_strlit("\n");
    reveal_strlit("");
    lemma_sep(toks, i);
    assert(breaks_in(""@) == 0);
    assert(breaks_in("\n"@) == 1) by {
        assert("\n"@.drop_last() =~= ""@);
    }
    if break_at(toks, i) {
        let f = indent_text(head_at(toks, i).cur.indent);
        let d = if head_at(toks, i).cur.blank {
            "\n"@
        } else {
            ""@
        };
        lemma_indent(head_at(toks, i).cur.indent);
        lemma_no_breaks(f);
        lemma_breaks_concat("\n"@ + d, f);
        lemma_breaks_concat("\n"@, d);
    } else {
        lemma_no_breaks(sep_at(toks, i));
    }
}

/// A token, where there is one, as its canonical spelling is read.
spec fn canon_opt(t: Option<TokenView>) -> Option<TokenView> {
    match t {
        Some(x) => Some(canon(x)),
        None => None,
    }
}

/// Whether a state of the formatter is another, but for the lines of the source and the spelling of
/// the last token.
spec fn sim(a: FmtView, b: FmtView) -> bool {
    b == (FmtView {
        spacing: LineView { prev: canon_opt(a.spacing.prev), ..a.spacing },
        prev: canon_opt(a.prev),
        prev_end: b.prev_end,
        ..a
    })
}

proof fn lemma_space_sim(a: LineView, t: TokenView)
    ensures
        ({
            let b = LineView { prev: canon_opt(a.prev), ..a };
            &&& space_before(b, canon(t)) == space_before(a, t)
            &&& line_step(b, canon(t)) == (LineView {
                prev: Some(canon(t)),
                ..line_step(a, t)
            })
        }),
{
}

proof fn lemma_head_sim(
    a: FmtView,
    b: FmtView,
    t: TokenView,
    line1: nat,
    line2: nat,
    next: Option<TokenView>,
)
    requires
        sim(a, b),
        breaks_before(a, t, line1, next).0 == breaks_before(b, canon(t), line2, canon_opt(next)).0,
        fmt_head(a, t, line1, next).cur.blank == fmt_head(
            b,
            canon(t),
            line2,
            canon_opt(next),
        ).cur.blank,
    ensures
        sim(fmt_head(a, t, line1, next), fmt_head(b, canon(t), line2, canon_opt(next))),
{
    let h1 = fmt_head(a, t, line1, next);
    let h2 = fmt_head(b, canon(t), line2, canon_opt(next));
    assert(closes(canon(t)) == closes(t));
    assert(h1.cur == h2.cur);
    assert(h1.lines == h2.lines);
}

proof fn lemma_emit_sim(h1: FmtView, h2: FmtView, t: TokenView, line1: nat, line2: nat)
    requires
        sim(h1, h2),
        valid(t),
    ensures
        sim(fmt_emit(h1, t, line1), fmt_emit(h2, canon(t), line2)),
        fmt_emit(h2, canon(t), line2).prev_end == line2 + breaks_of(t),
{
    lemma_space_sim(h1.spacing, t);
    lemma_canon(t);
    assert(opens(canon(t)) == opens(t));
}

proof fn lemma_member_sim(
    c: crate::fmt::Ctx,
    t: TokenView,
    next: Option<TokenView>,
    prev: Option<TokenView>,
)
    ensures
        crate::fmt::member_starts(c, canon(t), canon_opt(next), canon_opt(prev))
            == crate::fmt::member_starts(c, t, next, prev),
{
}

/// The formatter goes through its own output as it went through the source.
proof fn lemma_same_run(toks: Seq<PlacedView>, n: int)
    requires
        clean_tokens(toks),
        0 <= n <= toks.len(),
    ensures
        sim(fmt_run(toks, n), fmt_run(reread(toks), n)),
        n > 0 ==> fmt_run(reread(toks), n).prev_end == line_at(printed(toks), gap_of(toks, n)),
    decreases n,
{
    let again = reread(toks);
    if n > 0 {
        let i = n - 1;
        lemma_same_run(toks, i);
        lemma_written(toks, i);
        let a = fmt_run(toks, i);
        let b = fmt_run(again, i);
        let t = toks[i].token;
        let line1 = toks[i].line;
        let line2 = again[i].line;
        let next = token_at(toks, i + 1);
        assert(token_at(again, i + 1) == canon_opt(next));
        assert(again[i].token == canon(t));
        let r = printed(toks);
        lemma_layout(toks, i);
        lemma_sep_breaks(toks, i);
        lemma_line_span(r, gap_of(toks, i), sep_at(toks, i));
        lemma_token_breaks(t);
        lemma_line_span(r, start_of(toks, i), token_text(t));
        lemma_member_sim(a.ctx.last(), t, next, a.prev);
        assert(crate::fmt::starts_decl(canon(t)) == crate::fmt::starts_decl(t));
        lemma_head_sim(a, b, t, line1, line2, next);
        lemma_emit_sim(head_at(toks, i), head_at(again, i), t, line1, line2);
        assert(fmt_run(toks, n) == fmt_step(a, t, line1, next));
        assert(fmt_run(again, n) == fmt_step(b, canon(t), line2, canon_opt(next)));
    }
}

proof fn lemma_balance_same(toks: Seq<PlacedView>, n: int)
    ensures
        balance(reread(toks), n) == balance(toks, n),
    decreases n,
{
    if 0 < n <= toks.len() {
        lemma_balance_same(toks, n - 1);
        assert(reread(toks)[n - 1].token == canon(toks[n - 1].token));
    }
}

proof fn lemma_formatted(src: Seq<char>)
    ensures
        clean_tokens(tokens_of(src)),
        format_text(src) == (if tokens_of(src).len() == 0 {
            Seq::empty()
        } else {
            printed(tokens_of(src))
        }),
        tokens_of(format_text(src)) == reread(tokens_of(src)),
{
    let toks = tokens_of(src);
    lemma_source_tokens(src, 0);
    lemma_keeps_apart(toks);
    lemma_output(toks);
    if toks.len() == 0 {
        lemma_source_tokens(format_text(src), 0);
        assert(tokens_of(format_text(src)) =~= reread(toks));
    } else {
        lemma_reread(toks, 0);
        assert(reread(toks).subrange(0, toks.len() as int) =~= reread(toks));
    }
}

/// Formatting changes no token: the output is read as the tokens of the source, in their order, a
/// float literal in its canonical spelling.
pub proof fn law_format_keeps_tokens(src: Seq<char>)
    ensures
        tokens_of(format_text(src)).len() == tokens_of(src).len(),
        forall|i: int|
            0 <= i < tokens_of(src).len() ==> (#[trigger] tokens_of(format_text(src))[i]).token
                == canon(tokens_of(src)[i].token),
{
    lemma_formatted(src);
}

/// Formatting what has been formatted changes nothing, and what the formatter takes, it takes again.
pub proof fn law_format_is_idempotent(src: Seq<char>)
    ensures
        format_text(format_text(src)) == format_text(src),
        well_closed(tokens_of(src)) ==> well_closed(tokens_of(format_text(src))),
{
    let toks = tokens_of(src);
    lemma_formatted(src);
    lemma_same_run(toks, toks.len() as int);
    if well_closed(toks) {
        assert forall|i: int| 0 <= i < reread(toks).len() implies #[trigger] balance(
            reread(toks),
            i,
        ) >= 0 by {
            lemma_balance_same(toks, i);
            assert(balance(toks, i) >= 0);
        }
    }
}

proof fn lemma_zero_breaks(w: Seq<char>)
    requires
        breaks_in(w) == 0,
    ensures
        forall|i: int| 0 <= i < w.len() ==> #[trigger] w[i] != '\n',
    decreases w.len(),
{
    if w.len() > 0 {
        lemma_zero_breaks(w.drop_last());
        assert forall|i: int| 0 <= i < w.len() implies #[trigger] w[i] != '\n' by {
            if i < w.len() - 1 {
                assert(w[i] == w.drop_last()[i]);
            }
        }
    }
}

/// Whether no line of a text ends in white space, no two blank lines follow each other, and the text
/// does not start with one.
pub open spec fn tidy(t: Seq<char>) -> bool {
    forall|i: int|
        0 <= i < t.len() && #[trigger] t[i] == '\n' ==> {
            &&& i > 0
            &&& t[i - 1] == '\n' || !char_is_space(t[i - 1])
            &&& t[i - 1] == '\n' ==> i > 1 && t[i - 2] != '\n'
        }
}

/// Whether no text literal of a source goes over a line end.
pub open spec fn literals_end_on_their_line(src: Seq<char>) -> bool {
    forall|i: int|
        0 <= i < tokens_of(src).len() ==> ((#[trigger] tokens_of(src)[i]).token matches TokenView::Str(
            s,
        ) ==> breaks_in(s) == 0)
}

proof fn lemma_tidy_append(a: Seq<char>, b: Seq<char>, w: Seq<char>)
    requires
        tidy(a),
        a.len() > 0,
        !char_is_space(a.last()),
        forall|i: int| 0 <= i < w.len() ==> #[trigger] w[i] != '\n',
        forall|i: int| 0 <= i < b.len() && #[trigger] b[i] == '\n' ==> i == 0 || (i == 1 && b[0]
            == '\n'),
    ensures
        tidy(a + b + w),
{
    let t = a + b + w;
    let n = a.len() as int;
    assert(char_is_space('\n'));
    assert forall|i: int| 0 <= i < t.len() && #[trigger] t[i] == '\n' implies ({
        &&& i > 0
        &&& t[i - 1] == '\n' || !char_is_space(t[i - 1])
        &&& t[i - 1] == '\n' ==> i > 1 && t[i - 2] != '\n'
    }) by {
        if i < n {
            assert(t[i] == a[i]);
            assert(t[i - 1] == a[i - 1]);
            if a[i - 1] == '\n' {
                assert(t[i - 2] == a[i - 2]);
            }
        } else if i < n + b.len() {
            assert(t[i] == b[i - n]);
            assert(t[n - 1] == a[n - 1]);
            if i == n + 1 {
                assert(t[n] == b[0]);
            }
        } else {
            assert(t[i] == w[i - n - b.len()]);
        }
    }
}

proof fn lemma_sep_lines(toks: Seq<PlacedView>, i: int)
    ensures
        forall|k: int|
            0 <= k < sep_at(toks, i).len() && #[trigger] sep_at(toks, i)[k] == '\n' ==> k == 0 || (k
                == 1 && sep_at(toks, i)[0] == '\n'),
{
    reveal_strlit("\n");
    reveal_strlit("");
    reveal_strlit(" ");
    let x = sep_at(toks, i);
    if break_at(toks, i) {
        lemma_indent(head_at(toks, i).cur.indent);
        let d = if head_at(toks, i).cur.blank {
            "\n"@
        } else {
            ""@
        };
        let f = indent_text(head_at(toks, i).cur.indent);
        assert(x == "\n"@ + d + f);
        assert forall|k: int| 0 <= k < x.len() && #[trigger] x[k] == '\n' implies k == 0 || (k == 1
            && x[0] == '\n') by {
            if k >= 1 + d.len() {
                assert(x[k] == f[k - 1 - d.len()]);
            }
        }
    }
}

proof fn lemma_out_tidy(toks: Seq<PlacedView>, n: int)
    requires
        clean_tokens(toks),
        forall|i: int|
            0 <= i < toks.len() ==> ((#[trigger] toks[i]).token matches TokenView::Str(s) ==> breaks_in(
                s,
            ) == 0),
        0 <= n <= toks.len(),
    ensures
        tidy(out_text(toks, n)),
        n > 0 ==> out_text(toks, n).len() > 0 && !char_is_space(out_text(toks, n).last()),
        n > 0 ==> !char_is_space(out_text(toks, n)[0]),
    decreases n,
{
    if n > 0 {
        let i = n - 1;
        let t = toks[i].token;
        let w = token_text(t);
        let a = out_text(toks, i);
        let b = sep_at(toks, i);
        lemma_out_tidy(toks, i);
        lemma_token_shape(t);
        lemma_token_breaks(t);
        lemma_zero_breaks(w);
        assert(out_text(toks, n) == a + b + w);
        assert((a + b + w).last() == w.last());
        if i == 0 {
            lemma_sep(toks, 0);
            assert(fmt_run(toks, 0) == fmt_start());
            assert(!break_at(toks, 0));
            assert(joined(toks, 0));
            assert(a + b + w =~= w);
        } else {
            lemma_sep_lines(toks, i);
            lemma_tidy_append(a, b, w);
            assert((a + b + w)[0] == a[0]);
        }
    }
}

/// The output has no white space at the end of a line, no two blank lines in a row, and none at its
/// start or end.
pub proof fn law_format_is_tidy(src: Seq<char>)
    requires
        literals_end_on_their_line(src),
    ensures
        tidy(format_text(src)),
        format_text(src).len() > 0 ==> {
            &&& format_text(src).last() == '\n'
            &&& !char_is_space(format_text(src)[0])
            &&& format_text(src).len() > 1 && !char_is_space(
                format_text(src)[format_text(src).len() - 2],
            )
        },
{
    let toks = tokens_of(src);
    let n = toks.len() as int;
    reveal_strlit("\n");
    lemma_formatted(src);
    lemma_out_tidy(toks, n);
    if n > 0 {
        let a = out_text(toks, n);
        lemma_tidy_append(a, "\n"@, Seq::empty());
        assert(a + "\n"@ + Seq::<char>::empty() =~= printed(toks));
        assert(printed(toks)[0] == a[0]);
        assert(printed(toks)[a.len() - 1] == a[a.len() - 1]);
    }
}

/// The output is empty where the source holds no token, and otherwise ends in a line end.
pub proof fn law_format_ends_its_last_line(src: Seq<char>)
    ensures
        format_text(src).len() == 0 || format_text(src).last() == '\n',
        format_text(src).len() == 0 <==> tokens_of(src).len() == 0,
{
    reveal_strlit("\n");
    lemma_formatted(src);
}

} // verus!
