//! The canonical formatter: the token stream of a source, printed with canonical white space.
use vstd::prelude::*;
use vstd::string::*;

use crate::lexer::{lemma_skip_space, lex_at, line_at, trim_end, Lexer};
use crate::num::{i64_text, int_text, nat_text, usize_text};
use crate::scan::{find_char, find_one, lemma_find_char, trim_back};
use crate::text::{cat2, cat3, cat4, chars_of, same, slice_text};
use crate::token::{sym_label, sym_text, Sym, Token, TokenView};

verus! {

/// The kind of a block: where the members of a declaration stand one to a line, or any other.
#[derive(Debug, Clone, Copy, PartialEq, Eq, Structural)]
pub enum Ctx {
    Normal,
    Model,
    Enum,
    Endpoint,
}

/// Whether the members of a block stand one to a line.
pub open spec fn lists_members(c: Ctx) -> bool {
    c != Ctx::Normal
}

/// The first index that does not hold a leading zero, but for the last character.
pub open spec fn lead_zeros(t: Seq<char>, i: int) -> int
    decreases t.len() - i,
{
    if 0 <= i < t.len() - 1 && t[i] == '0' {
        lead_zeros(t, i + 1)
    } else {
        i
    }
}

/// The end of a text without its trailing zeros, but for the first character.
pub open spec fn trail_zeros(t: Seq<char>, n: int) -> int
    decreases n,
{
    if 1 < n <= t.len() && t[n - 1] == '0' {
        trail_zeros(t, n - 1)
    } else {
        n
    }
}

/// A float literal in canonical form: no zeros in front but one, none behind but one.
pub open spec fn float_text(t: Seq<char>) -> Seq<char> {
    match find_char(t, '.', 0) {
        None => t + ".0"@,
        Some(k) => {
            let whole = t.subrange(0, k);
            let part = t.subrange(k + 1, t.len() as int);
            let i = lead_zeros(whole, 0);
            whole.subrange(i, whole.len() as int) + "."@ + part.subrange(
                0,
                trail_zeros(part, part.len() as int),
            )
        },
    }
}

/// The canonical spelling of a token.
pub open spec fn token_text(t: TokenView) -> Seq<char> {
    match t {
        TokenView::Identifier(s) => s,
        TokenView::Int(n) => int_text(n),
        TokenView::Float(s) => float_text(s),
        TokenView::Str(s) => "\""@ + s + "\""@,
        TokenView::Comment(s) => s,
        TokenView::Illegal(c) => seq![c],
        TokenView::Sym(s) => sym_text(s),
    }
}

proof fn lemma_lead_zeros(t: Seq<char>, i: int)
    requires
        0 <= i <= t.len(),
    ensures
        i <= lead_zeros(t, i) <= t.len(),
    decreases t.len() - i,
{
    if i < t.len() - 1 && t[i] == '0' {
        lemma_lead_zeros(t, i + 1);
    }
}

proof fn lemma_trail_zeros(t: Seq<char>, n: int)
    requires
        0 <= n <= t.len(),
    ensures
        0 <= trail_zeros(t, n) <= n,
    decreases n,
{
    if 1 < n && t[n - 1] == '0' {
        lemma_trail_zeros(t, n - 1);
    }
}

fn float_src(t: &str) -> (r: String)
    ensures
        r@ == float_text(t@),
{
    let b = chars_of(t);
    let n: usize = b.len();
    match find_one(&b, '.', 0) {
        None => cat2(t, ".0"),
        Some(k) => {
            proof {
                lemma_find_char(b@, '.', 0);
            }
            let ghost whole = b@.subrange(0, k as int);
            let ghost part = b@.subrange(k + 1, n as int);
            let mut i: usize = 0;
            while i + 1 < k && b[i] == '0'
                invariant
                    i <= k < n,
                    n == b@.len(),
                    whole == b@.subrange(0, k as int),
                    lead_zeros(whole, 0) == lead_zeros(whole, i as int),
                decreases k - i,
            {
                proof {
                    assert(whole[i as int] == b@[i as int]);
                }
                i = i + 1;
            }
            proof {
                if i + 1 < k {
                    assert(whole[i as int] == b@[i as int]);
                }
                assert(lead_zeros(whole, 0) == i);
            }
            let mut e: usize = n;
            while e - k > 2 && b[e - 1] == '0'
                invariant
                    k + 1 <= e <= n,
                    k < n,
                    n == b@.len(),
                    part == b@.subrange(k + 1, n as int),
                    trail_zeros(part, part.len() as int) == trail_zeros(part, e - k - 1),
                decreases e,
            {
                proof {
                    assert(part[e - k - 2] == b@[e - 1]);
                }
                e = e - 1;
            }
            proof {
                if e - k > 2 {
                    assert(part[e - k - 2] == b@[e - 1]);
                }
                assert(trail_zeros(part, part.len() as int) == e - k - 1);
                assert(whole.subrange(i as int, whole.len() as int) =~= b@.subrange(
                    i as int,
                    k as int,
                ));
                assert(part.subrange(0, e - k - 1) =~= b@.subrange(k + 1, e as int));
            }
            cat3(&slice_text(&b, i, k), ".", &slice_text(&b, k + 1, e))
        },
    }
}

/// A number by its digits, the first of them in front of the point, and a power of ten.
pub open spec fn scaled_text(digits: Seq<char>, mark: Seq<char>, power: nat) -> Seq<char> {
    digits.subrange(0, 1) + (if digits.len() > 1 {
        "."@ + digits.subrange(1, digits.len() as int)
    } else {
        ""@
    }) + mark + nat_text(power)
}

/// A float literal as a program prints it: in canonical form, and with a power of ten from ten to the
/// sixteenth on and below one ten-thousandth.
pub open spec fn float_lit_text(t: Seq<char>) -> Seq<char> {
    let f = float_text(t);
    match find_char(f, '.', 0) {
        None => f,
        Some(k) => {
            let whole = f.subrange(0, k);
            let part = f.subrange(k + 1, f.len() as int);
            let zeros = lead_zeros(part, 0);
            if k > 16 {
                let digits = whole + part;
                scaled_text(
                    digits.subrange(0, trail_zeros(digits, digits.len() as int)),
                    "e"@,
                    (k - 1) as nat,
                )
            } else if k == 1 && f[0] == '0' && zeros >= 4 && part[zeros] != '0' {
                scaled_text(
                    part.subrange(zeros, part.len() as int),
                    "e-"@,
                    (zeros + 1) as nat,
                )
            } else {
                f
            }
        },
    }
}

fn scaled(b: &Vec<char>, from: usize, to: usize, mark: &str, power: usize) -> (r: String)
    requires
        from < to <= b@.len(),
    ensures
        r@ == scaled_text(b@.subrange(from as int, to as int), mark@, power as nat),
{
    let first = slice_text(b, from, from + 1);
    let ghost d = b@.subrange(from as int, to as int);
    proof {
        assert(d.subrange(0, 1) =~= b@.subrange(from as int, from + 1));
        assert(d.subrange(1, d.len() as int) =~= b@.subrange(from + 1, to as int));
    }
    if to - from > 1 {
        cat4(&first, &cat2(".", &slice_text(b, from + 1, to)), mark, &usize_text(power))
    } else {
        cat4(&first, "", mark, &usize_text(power))
    }
}

/// A float literal as a program prints it.
pub fn float_lit(t: &str) -> (r: String)
    ensures
        r@ == float_lit_text(t@),
{
    let f = float_src(t);
    let b = chars_of(&f);
    let n: usize = b.len();
    match find_one(&b, '.', 0) {
        None => f,
        Some(k) => {
            proof {
                lemma_find_char(b@, '.', 0);
            }
            let ghost whole = b@.subrange(0, k as int);
            let ghost part = b@.subrange(k + 1, n as int);
            if k > 16 {
                let mut d: Vec<char> = Vec::new();
                let mut i: usize = 0;
                while i < n
                    invariant
                        i <= n,
                        k < n,
                        n == b@.len(),
                        d@ == (if i <= k {
                            b@.subrange(0, i as int)
                        } else {
                            b@.subrange(0, k as int) + b@.subrange(k + 1, i as int)
                        }),
                    decreases n - i,
                {
                    let ghost before = d@;
                    if i != k {
                        d.push(b[i]);
                    }
                    proof {
                        if i < k {
                            assert(b@.subrange(0, i + 1) =~= b@.subrange(0, i as int).push(
                                b@[i as int],
                            ));
                        } else if i == k {
                            assert(b@.subrange(0, k as int) + b@.subrange(k + 1, k + 1) =~= b@.subrange(
                                0,
                                k as int,
                            ));
                        } else {
                            assert(b@.subrange(k + 1, i + 1) =~= b@.subrange(k + 1, i as int).push(
                                b@[i as int],
                            ));
                            assert(d@ =~= b@.subrange(0, k as int) + b@.subrange(k + 1, i + 1));
                        }
                    }
                    i = i + 1;
                }
                proof {
                    assert(d@ == whole + part);
                    assert(d@.len() == n - 1);
                }
                let mut e: usize = d.len();
                while e > 1 && d[e - 1] == '0'
                    invariant
                        1 <= e <= d@.len(),
                        trail_zeros(d@, d@.len() as int) == trail_zeros(d@, e as int),
                    decreases e,
                {
                    e = e - 1;
                }
                proof {
                    assert(trail_zeros(d@, d@.len() as int) == e);
                }
                scaled(&d, 0, e, "e", k - 1)
            } else {
                let mut z: usize = k + 1;
                while z < n - 1 && b[z] == '0'
                    invariant
                        k + 1 <= z <= n,
                        z < n || n == k + 1,
                        k < n,
                        n == b@.len(),
                        part == b@.subrange(k + 1, n as int),
                        lead_zeros(part, 0) == lead_zeros(part, z - k - 1),
                    decreases n - z,
                {
                    proof {
                        assert(part[z - k - 1] == b@[z as int]);
                    }
                    z = z + 1;
                }
                proof {
                    if z + 1 < n {
                        assert(part[z - k - 1] == b@[z as int]);
                    }
                    assert(lead_zeros(part, 0) == z - k - 1);
                }
                if k == 1 && b[0] == '0' && z - k - 1 >= 4 && z < n && b[z] != '0' {
                    proof {
                        assert(part[z - k - 1] == b@[z as int]);
                        assert(part.subrange(z - k - 1, part.len() as int) =~= b@.subrange(
                            z as int,
                            n as int,
                        ));
                    }
                    scaled(&b, z, n, "e-", z - k)
                } else {
                    proof {
                        if z < n {
                            assert(part[z - k - 1] == b@[z as int]);
                        }
                    }
                    f
                }
            }
        },
    }
}

/// The canonical spelling of a token.
pub fn token_src(t: &Token) -> (r: String)
    ensures
        r@ == token_text(t@),
{
    match t {
        Token::Identifier(s) => s.clone(),
        Token::Int(n) => i64_text(*n),
        Token::Float(s) => float_src(s),
        Token::Str(s) => cat3("\"", s, "\""),
        Token::Comment(s) => s.clone(),
        Token::Illegal(c) => {
            let mut out = String::new();
            out.push(*c);
            proof {
                assert(out@ =~= seq![*c]);
            }
            out
        },
        Token::Sym(s) => sym_label(*s).to_owned(),
    }
}

/// A token and the line where it starts.
pub struct Placed {
    pub token: Token,
    pub line: usize,
}

/// A token and the line where it starts, by their texts.
pub struct PlacedView {
    pub token: TokenView,
    pub line: nat,
}

impl View for Placed {
    type V = PlacedView;

    open spec fn view(&self) -> PlacedView {
        PlacedView { token: self.token@, line: self.line as nat }
    }
}

/// The tokens of a list, by their texts.
pub open spec fn placed_views(ts: Seq<Placed>) -> Seq<PlacedView> {
    Seq::new(ts.len(), |i: int| ts[i]@)
}

/// The token that is read from a position on, with its line.
pub open spec fn placed_at(s: Seq<char>, p: int) -> PlacedView {
    let x = lex_at(s, p, true);
    PlacedView { token: x.token, line: line_at(s, x.start) }
}

/// The tokens of a source from a position on, comments kept, up to the end.
pub open spec fn tokens_from(s: Seq<char>, p: int) -> Seq<PlacedView>
    decreases
        (if p < s.len() {
            s.len() - p
        } else {
            0
        }),
{
    let x = lex_at(s, p, true);
    if x.token == TokenView::Sym(Sym::EOF) || p < 0 || p >= s.len() || x.end <= p {
        Seq::empty()
    } else {
        seq![placed_at(s, p)] + tokens_from(s, x.end)
    }
}

/// The tokens of a source, comments kept, up to the end.
pub open spec fn tokens_of(src: Seq<char>) -> Seq<PlacedView> {
    tokens_from(src, 0)
}

pub proof fn lemma_lex_bounds(s: Seq<char>, p: int)
    requires
        0 <= p <= s.len(),
    ensures
        lex_at(s, p, true).end > p || lex_at(s, p, true).end == s.len(),
        lex_at(s, p, true).token != TokenView::Sym(Sym::EOF) ==> p < lex_at(s, p, true).end
            && lex_at(s, p, true).end <= s.len() + 1 && p <= lex_at(s, p, true).start < s.len(),
        lex_at(s, p, true).token == TokenView::Sym(Sym::EOF) ==> lex_at(s, p, true).end <= s.len()
            + 1,
        p == s.len() ==> lex_at(s, p, true).token == TokenView::Sym(Sym::EOF),
{
    lemma_skip_space(s, p);
    let q = crate::lexer::skip_space(s, p);
    if q < s.len() {
        crate::lexer::lemma_line_end(s, q);
        if crate::lexer::chr(s, q) == '/' {
            crate::lexer::lemma_line_end(s, q + 1);
        }
        crate::lexer::lemma_quote_end(s, q + 1);
        crate::lexer::lemma_word_end(s, q);
        crate::lexer::lemma_digits_end(s, q);
        let e = crate::lexer::digits_end(s, q);
        if e < s.len() {
            crate::lexer::lemma_digits_end(s, e + 1);
        }
        assert(crate::lexer::word_char(s[q]) ==> crate::lexer::word_end(s, q) > q) by {
            if crate::lexer::word_char(s[q]) {
                crate::lexer::lemma_word_end(s, q + 1);
            }
        }
        assert(crate::num::is_digit(s[q]) ==> crate::lexer::digits_end(s, q) > q) by {
            if crate::num::is_digit(s[q]) {
                crate::lexer::lemma_digits_end(s, q + 1);
            }
        }
    }
}

/// Reads all tokens of a source, comments kept, with the line of each.
pub fn lex_with_lines(src: &str) -> (r: Vec<Placed>)
    requires
        src@.len() + 8 <= usize::MAX,
    ensures
        placed_views(r@) == tokens_of(src@),
{
    let mut lx = Lexer::new(src).keep_comments();
    let mut out: Vec<Placed> = Vec::new();
    let ghost s = src@;
    proof {
        assert(placed_views(out@) + tokens_from(s, 0) =~= tokens_of(s));
    }
    loop
        invariant_except_break
            lx.wf(),
            s == src@,
            s.len() + 8 <= usize::MAX,
            lx@.input == s,
            lx@.keep,
            0 <= lx@.position <= s.len() + 1,
            placed_views(out@) + tokens_from(s, lx@.position) == tokens_of(s),
        ensures
            placed_views(out@) == tokens_of(s),
        decreases s.len() + 2 - lx@.position,
    {
        let ghost p = lx@.position;
        if lx.at_end() {
            proof {
                assert(placed_views(out@) =~= placed_views(out@) + tokens_from(s, p));
            }
            break;
        }
        proof {
            lemma_lex_bounds(s, p);
        }
        let t = lx.next_token();
        if let Token::Sym(Sym::EOF) = t {
            proof {
                assert(placed_views(out@) =~= placed_views(out@) + tokens_from(s, p));
            }
            break;
        }
        let line: usize = lx.token_line();
        let ghost before = placed_views(out@);
        let x = Placed { token: t, line };
        let ghost v = x@;
        out.push(x);
        proof {
            assert(placed_views(out@) =~= before.push(v));
            assert(tokens_from(s, p) == seq![placed_at(s, p)] + tokens_from(s, lx@.position));
            assert(before + tokens_from(s, p) =~= before.push(v) + tokens_from(s, lx@.position));
        }
    }
    out
}

/// Whether a token is an identifier, a value, or closes one: what a call, an index or a binary `-` can
/// follow.
pub open spec fn ends_value(t: TokenView) -> bool {
    match t {
        TokenView::Identifier(_) | TokenView::Int(_) | TokenView::Float(_) | TokenView::Str(_) => {
            true
        },
        TokenView::Comment(_) | TokenView::Illegal(_) => false,
        TokenView::Sym(s) => s == Sym::True || s == Sym::False || s == Sym::RParen || s
            == Sym::RBracket,
    }
}

fn is_ident_or_value(t: &Token) -> (r: bool)
    ensures
        r == ends_value(t@),
{
    match t {
        Token::Identifier(_) | Token::Int(_) | Token::Float(_) | Token::Str(_) => true,
        Token::Comment(_) | Token::Illegal(_) => false,
        Token::Sym(s) => *s == Sym::True || *s == Sym::False || *s == Sym::RParen || *s
            == Sym::RBracket,
    }
}

/// Whether a token is one of the generic types.
pub open spec fn generic_head(t: TokenView) -> bool {
    t == TokenView::Identifier("List"@) || t == TokenView::Identifier("Optional"@)
}

fn is_generic_head(t: &Token) -> (r: bool)
    ensures
        r == generic_head(t@),
{
    match t {
        Token::Identifier(s) => same(s, "List") || same(s, "Optional"),
        _ => false,
    }
}

/// Whether a token starts a declaration at the top level.
pub open spec fn starts_decl(t: TokenView) -> bool {
    match t {
        TokenView::Sym(s) => s == Sym::Server || s == Sym::Ui || s == Sym::Fn || s == Sym::Model || s
            == Sym::Synced || s == Sym::Local || s == Sym::Auth,
        TokenView::Identifier(w) => w == "enum"@ || w == "endpoint"@,
        _ => false,
    }
}

fn is_decl_start(t: &Token) -> (r: bool)
    ensures
        r == starts_decl(t@),
{
    match t {
        Token::Sym(s) => *s == Sym::Server || *s == Sym::Ui || *s == Sym::Fn || *s == Sym::Model
            || *s == Sym::Synced || *s == Sym::Local || *s == Sym::Auth,
        Token::Identifier(w) => same(w, "enum") || same(w, "endpoint"),
        _ => false,
    }
}

fn is_sym(t: &Token, s: Sym) -> (r: bool)
    ensures
        r == (t@ == TokenView::Sym(s)),
{
    match t {
        Token::Sym(x) => *x == s,
        _ => false,
    }
}

/// Whether a fixed token is a keyword.
pub open spec fn is_word_sym(s: Sym) -> bool {
    s == Sym::Server || s == Sym::Ui || s == Sym::Secret || s == Sym::Synced || s == Sym::Local || s
        == Sym::Model || s == Sym::State || s == Sym::Declassify || s == Sym::Raw || s == Sym::Auth
        || s == Sym::Await || s == Sym::Try || s == Sym::Catch || s == Sym::Bind || s == Sym::NoneLit
        || s == Sym::Fn || s == Sym::Let || s == Sym::Return || s == Sym::True || s == Sym::False
}

/// Whether a token's spelling is a word.
pub open spec fn is_word(t: TokenView) -> bool {
    match t {
        TokenView::Identifier(_) => true,
        TokenView::Sym(s) => is_word_sym(s),
        _ => false,
    }
}

/// Whether a token's spelling is a number.
pub open spec fn is_numeral(t: TokenView) -> bool {
    t is Int || t is Float
}

/// Whether a token's spelling starts with an equals sign.
pub open spec fn starts_equal(t: TokenView) -> bool {
    t == TokenView::Sym(Sym::Assign) || t == TokenView::Sym(Sym::Eq)
}

/// Whether two tokens, one directly behind the other, read as something else.
pub open spec fn glue(p: TokenView, c: TokenView) -> bool {
    ||| is_word(p) && (is_word(c) || is_numeral(c))
    ||| is_numeral(p) && is_numeral(c)
    ||| (p == TokenView::Sym(Sym::Assign) || p == TokenView::Sym(Sym::Bang) || p == TokenView::Sym(
        Sym::LAngle,
    ) || p == TokenView::Sym(Sym::RAngle)) && starts_equal(c)
    ||| p == TokenView::Sym(Sym::Dot) && (c == TokenView::Sym(Sym::Dot) || c == TokenView::Sym(
        Sym::DotDot,
    ))
    ||| p == TokenView::Sym(Sym::Minus) && (c == TokenView::Sym(Sym::RAngle) || c == TokenView::Sym(
        Sym::GtEq,
    ))
    ||| p == TokenView::Sym(Sym::Slash) && (c == TokenView::Sym(Sym::Slash) || c is Comment)
    ||| p == TokenView::Illegal('&') && (c == TokenView::Illegal('&') || c == TokenView::Sym(
        Sym::And,
    ))
    ||| p == TokenView::Illegal('|') && (c == TokenView::Illegal('|') || c == TokenView::Sym(
        Sym::Or,
    ))
}

fn is_keyword(s: Sym) -> (r: bool)
    ensures
        r == is_word_sym(s),
{
    s == Sym::Server || s == Sym::Ui || s == Sym::Secret || s == Sym::Synced || s == Sym::Local || s
        == Sym::Model || s == Sym::State || s == Sym::Declassify || s == Sym::Raw || s == Sym::Auth
        || s == Sym::Await || s == Sym::Try || s == Sym::Catch || s == Sym::Bind || s == Sym::NoneLit
        || s == Sym::Fn || s == Sym::Let || s == Sym::Return || s == Sym::True || s == Sym::False
}

fn is_word_token(t: &Token) -> (r: bool)
    ensures
        r == is_word(t@),
{
    match t {
        Token::Identifier(_) => true,
        Token::Sym(s) => is_keyword(*s),
        _ => false,
    }
}

fn is_number(t: &Token) -> (r: bool)
    ensures
        r == is_numeral(t@),
{
    match t {
        Token::Int(_) | Token::Float(_) => true,
        _ => false,
    }
}

fn is_unknown(t: &Token, c: char) -> (r: bool)
    ensures
        r == (t@ == TokenView::Illegal(c)),
{
    match t {
        Token::Illegal(x) => *x == c,
        _ => false,
    }
}

fn glues(p: &Token, c: &Token) -> (r: bool)
    ensures
        r == glue(p@, c@),
{
    let comment = match c {
        Token::Comment(_) => true,
        _ => false,
    };
    let equal = is_sym(c, Sym::Assign) || is_sym(c, Sym::Eq);
    (is_word_token(p) && (is_word_token(c) || is_number(c))) || (is_number(p) && is_number(c)) || ((
    is_sym(p, Sym::Assign) || is_sym(p, Sym::Bang) || is_sym(p, Sym::LAngle) || is_sym(
        p,
        Sym::RAngle,
    )) && equal) || (is_sym(p, Sym::Dot) && (is_sym(c, Sym::Dot) || is_sym(c, Sym::DotDot))) || (
    is_sym(p, Sym::Minus) && (is_sym(c, Sym::RAngle) || is_sym(c, Sym::GtEq))) || (is_sym(
        p,
        Sym::Slash,
    ) && (is_sym(c, Sym::Slash) || comment)) || (is_unknown(p, '&') && (is_unknown(c, '&') || is_sym(
        c,
        Sym::And,
    ))) || (is_unknown(p, '|') && (is_unknown(c, '|') || is_sym(c, Sym::Or)))
}

/// The spacing state of an output line.
pub struct LineView {
    pub prev: Option<TokenView>,
    /// How deep the line is in `<...>` of generic types.
    pub gdepth: nat,
    /// How many `?` of the line still lack their `:`.
    pub pending: nat,
    /// Whether the last token was a prefix `-` or `!`.
    pub unary: bool,
    /// Whether the last token was a `.` behind an integer.
    pub point: bool,
}

/// The spacing state at the start of a line.
pub open spec fn fresh_line() -> LineView {
    LineView { prev: None, gdepth: 0, pending: 0, unary: false, point: false }
}

/// Whether a space stands between two tokens, generic types and prefixes aside.
pub open spec fn spaced(prev: TokenView, cur: TokenView, pending: nat) -> bool {
    if cur == TokenView::Sym(Sym::Comma) || cur == TokenView::Sym(Sym::Dot) || cur == TokenView::Sym(
        Sym::DotDot,
    ) || cur == TokenView::Sym(Sym::RParen) || cur == TokenView::Sym(Sym::RBracket) {
        false
    } else if cur == TokenView::Sym(Sym::Colon) {
        pending > 0
    } else if cur == TokenView::Sym(Sym::LParen) || cur == TokenView::Sym(Sym::LBracket) {
        !ends_value(prev)
    } else if cur == TokenView::Sym(Sym::RBrace) {
        prev != TokenView::Sym(Sym::LBrace)
    } else if prev == TokenView::Sym(Sym::Dot) || prev == TokenView::Sym(Sym::DotDot) || prev
        == TokenView::Sym(Sym::LParen) || prev == TokenView::Sym(Sym::LBracket) || prev
        == TokenView::Sym(Sym::Bang) {
        false
    } else {
        true
    }
}

fn no_then_yes(prev: &Token, cur: &Token, pending: usize) -> (r: bool)
    ensures
        r == spaced(prev@, cur@, pending as nat),
{
    if is_sym(cur, Sym::Comma) || is_sym(cur, Sym::Dot) || is_sym(cur, Sym::DotDot) || is_sym(
        cur,
        Sym::RParen,
    ) || is_sym(cur, Sym::RBracket) {
        false
    } else if is_sym(cur, Sym::Colon) {
        pending > 0
    } else if is_sym(cur, Sym::LParen) || is_sym(cur, Sym::LBracket) {
        !is_ident_or_value(prev)
    } else if is_sym(cur, Sym::RBrace) {
        !is_sym(prev, Sym::LBrace)
    } else if is_sym(prev, Sym::Dot) || is_sym(prev, Sym::DotDot) || is_sym(prev, Sym::LParen)
        || is_sym(prev, Sym::LBracket) || is_sym(prev, Sym::Bang) {
        false
    } else {
        true
    }
}

/// Whether a token stands without spaces inside a generic type.
pub open spec fn generic_part(t: TokenView) -> bool {
    t is Identifier || t is Int || t == TokenView::Sym(Sym::LAngle) || t == TokenView::Sym(
        Sym::RAngle,
    ) || t == TokenView::Sym(Sym::Comma)
}

fn is_generic_part(t: &Token) -> (r: bool)
    ensures
        r == generic_part(t@),
{
    match t {
        Token::Identifier(_) | Token::Int(_) => true,
        Token::Sym(s) => *s == Sym::LAngle || *s == Sym::RAngle || *s == Sym::Comma,
        _ => false,
    }
}

/// Whether a `<` opens a generic type.
pub open spec fn opens_generic(st: LineView, cur: TokenView) -> bool {
    cur == TokenView::Sym(Sym::LAngle) && st.prev is Some && generic_head(st.prev->0)
}

/// Whether a space stands in front of a token on a line: always where it would otherwise read as
/// something else together with what stands in front of it.
pub open spec fn space_before(st: LineView, cur: TokenView) -> bool {
    match st.prev {
        None => false,
        Some(p) => if glue(p, cur) || (st.point && is_numeral(cur)) {
            true
        } else if st.gdepth > 0 && generic_part(cur) {
            false
        } else if opens_generic(st, cur) || st.unary {
            false
        } else {
            spaced(p, cur, st.pending)
        },
    }
}

/// The spacing state behind a token.
pub open spec fn line_step(st: LineView, cur: TokenView) -> LineView {
    LineView {
        prev: Some(cur),
        gdepth: if opens_generic(st, cur) {
            st.gdepth + 1
        } else if cur == TokenView::Sym(Sym::RAngle) && st.gdepth > 0 {
            (st.gdepth - 1) as nat
        } else {
            st.gdepth
        },
        pending: if cur == TokenView::Sym(Sym::Question) {
            st.pending + 1
        } else if cur == TokenView::Sym(Sym::Colon) && st.pending > 0 {
            (st.pending - 1) as nat
        } else {
            st.pending
        },
        unary: cur == TokenView::Sym(Sym::Bang) || (cur == TokenView::Sym(Sym::Minus) && !(
        st.prev is Some && ends_value(st.prev->0))),
        point: cur == TokenView::Sym(Sym::Dot) && st.prev is Some && st.prev->0 is Int,
    }
}

/// The spacing state of an output line. The last token is the one at an index of the token list.
struct LineState {
    prev: Option<usize>,
    gdepth: usize,
    pending: usize,
    unary: bool,
    point: bool,
}

spec fn line_view(st: LineState, toks: Seq<PlacedView>) -> LineView {
    LineView {
        prev: match st.prev {
            Some(i) => Some(toks[i as int].token),
            None => None,
        },
        gdepth: st.gdepth as nat,
        pending: st.pending as nat,
        unary: st.unary,
        point: st.point,
    }
}

fn space_and_update(st: &mut LineState, toks: &Vec<Placed>, i: usize) -> (r: bool)
    requires
        i < toks@.len(),
        old(st).prev is Some ==> old(st).prev->0 < toks@.len(),
        old(st).gdepth <= i,
        old(st).pending <= i,
    ensures
        r == space_before(
            line_view(*old(st), placed_views(toks@)),
            placed_views(toks@)[i as int].token,
        ),
        line_view(*final(st), placed_views(toks@)) == line_step(
            line_view(*old(st), placed_views(toks@)),
            placed_views(toks@)[i as int].token,
        ),
        final(st).prev == Some(i),
        final(st).gdepth <= i + 1,
        final(st).pending <= i + 1,
{
    let n: usize = toks.len();
    let cur = &toks[i].token;
    proof {
        assert(i < n);
        assert(placed_views(toks@)[i as int].token == cur@);
        if st.prev is Some {
            assert(placed_views(toks@)[st.prev->0 as int].token == toks@[st.prev->0 as int].token@);
        }
    }
    let opening = match st.prev {
        Some(k) => is_sym(cur, Sym::LAngle) && is_generic_head(&toks[k].token),
        None => false,
    };
    let value_before = match st.prev {
        Some(k) => is_ident_or_value(&toks[k].token),
        None => false,
    };
    let int_before = match st.prev {
        Some(k) => match &toks[k].token {
            Token::Int(_) => true,
            _ => false,
        },
        None => false,
    };
    let space = match st.prev {
        None => false,
        Some(k) => if glues(&toks[k].token, cur) || (st.point && is_number(cur)) {
            true
        } else if st.gdepth > 0 && is_generic_part(cur) {
            false
        } else if opening || st.unary {
            false
        } else {
            no_then_yes(&toks[k].token, cur, st.pending)
        },
    };
    if is_sym(cur, Sym::Question) {
        st.pending = st.pending + 1;
    } else if is_sym(cur, Sym::Colon) && st.pending > 0 {
        st.pending = st.pending - 1;
    }
    if opening {
        st.gdepth = st.gdepth + 1;
    } else if is_sym(cur, Sym::RAngle) && st.gdepth > 0 {
        st.gdepth = st.gdepth - 1;
    }
    st.unary = is_sym(cur, Sym::Bang) || (is_sym(cur, Sym::Minus) && !value_before);
    st.point = is_sym(cur, Sym::Dot) && int_before;
    st.prev = Some(i);
    space
}

/// Whether a member of a block starts at a token.
pub open spec fn member_starts(
    c: Ctx,
    t: TokenView,
    next: Option<TokenView>,
    prev: Option<TokenView>,
) -> bool {
    match c {
        Ctx::Model => t == TokenView::Sym(Sym::Secret) || (t is Identifier && next == Some(
            TokenView::Sym(Sym::Colon),
        ) && prev != Some(TokenView::Sym(Sym::Secret))),
        Ctx::Enum => t is Identifier,
        Ctx::Endpoint => t == TokenView::Sym(Sym::Secret) || t == TokenView::Identifier("base"@),
        Ctx::Normal => false,
    }
}

fn member_starts_here(c: Ctx, t: &Token, next: Option<&Token>, prev: Option<&Token>) -> (r: bool)
    ensures
        r == member_starts(
            c,
            t@,
            (match next {
                Some(x) => Some(x@),
                None => None,
            }),
            (match prev {
                Some(x) => Some(x@),
                None => None,
            }),
        ),
{
    match c {
        Ctx::Model => {
            let named = match t {
                Token::Identifier(_) => true,
                _ => false,
            };
            let typed = match next {
                Some(x) => is_sym(x, Sym::Colon),
                None => false,
            };
            let behind_secret = match prev {
                Some(x) => is_sym(x, Sym::Secret),
                None => false,
            };
            is_sym(t, Sym::Secret) || (named && typed && !behind_secret)
        },
        Ctx::Enum => match t {
            Token::Identifier(_) => true,
            _ => false,
        },
        Ctx::Endpoint => match t {
            Token::Identifier(w) => same(w, "base"),
            _ => is_sym(t, Sym::Secret),
        },
        Ctx::Normal => false,
    }
}

/// An output line: its indentation, its text, and whether a blank line stands in front of it.
pub struct OutLine {
    indent: usize,
    text: String,
    blank: bool,
}

/// An output line, by its text.
pub struct OutView {
    pub indent: nat,
    pub text: Seq<char>,
    pub blank: bool,
}

impl View for OutLine {
    type V = OutView;

    closed spec fn view(&self) -> OutView {
        OutView { indent: self.indent as nat, text: self.text@, blank: self.blank }
    }
}

/// The output lines of a list, by their texts.
pub open spec fn out_views(ls: Seq<OutLine>) -> Seq<OutView> {
    Seq::new(ls.len(), |i: int| ls[i]@)
}

/// The state of the formatter between two tokens.
pub struct FmtView {
    pub lines: Seq<OutView>,
    pub cur: OutView,
    pub spacing: LineView,
    pub depth: nat,
    pub ctx: Seq<Ctx>,
    pub member: Option<Ctx>,
    pub force: bool,
    pub prev_end: nat,
    pub prev: Option<TokenView>,
}

/// The state of the formatter before the first token.
pub open spec fn fmt_start() -> FmtView {
    FmtView {
        lines: Seq::empty(),
        cur: OutView { indent: 0, text: Seq::empty(), blank: false },
        spacing: fresh_line(),
        depth: 0,
        ctx: seq![Ctx::Normal],
        member: None,
        force: false,
        prev_end: 0,
        prev: None,
    }
}

/// The number of line breaks in a text.
pub open spec fn breaks_in(s: Seq<char>) -> nat
    decreases s.len(),
{
    if s.len() == 0 {
        0
    } else if s.last() == '\n' {
        breaks_in(s.drop_last()) + 1
    } else {
        breaks_in(s.drop_last())
    }
}

/// Whether a token closes a block, a list or a group.
pub open spec fn closes(t: TokenView) -> bool {
    t == TokenView::Sym(Sym::RBrace) || t == TokenView::Sym(Sym::RBracket) || t == TokenView::Sym(
        Sym::RParen,
    )
}

/// Whether a token opens a block, a list or a group.
pub open spec fn opens(t: TokenView) -> bool {
    t == TokenView::Sym(Sym::LBrace) || t == TokenView::Sym(Sym::LBracket) || t == TokenView::Sym(
        Sym::LParen,
    )
}

/// Whether a line ends in front of a token, and whether a blank line follows it: a break of the
/// source is kept, and the members of a declaration stand one to a line.
pub open spec fn breaks_before(
    st: FmtView,
    t: TokenView,
    line: nat,
    next: Option<TokenView>,
) -> (bool, bool) {
    let c = st.ctx.last();
    if st.cur.text.len() == 0 {
        (false, false)
    } else if st.force {
        (true, false)
    } else if line > st.prev_end {
        (true, line > st.prev_end + 1)
    } else {
        (
            lists_members(c) && (member_starts(c, t, next, st.prev) || t == TokenView::Sym(
                Sym::RBrace,
            )),
            false,
        )
    }
}

/// The kind of block that a declaration's `{` will open.
pub open spec fn member_kind(t: TokenView, before: Option<Ctx>) -> Option<Ctx> {
    if t == TokenView::Sym(Sym::Model) {
        Some(Ctx::Model)
    } else if t == TokenView::Identifier("enum"@) {
        Some(Ctx::Enum)
    } else if t == TokenView::Identifier("endpoint"@) {
        Some(Ctx::Endpoint)
    } else {
        before
    }
}

/// The kind of block that an opening token opens.
pub open spec fn opened_kind(t: TokenView, member: Option<Ctx>) -> Ctx {
    if t == TokenView::Sym(Sym::LBrace) && member is Some {
        member->0
    } else {
        Ctx::Normal
    }
}

/// The state of the formatter in front of a token, its line begun.
pub open spec fn fmt_head(st: FmtView, t: TokenView, line: nat, next: Option<TokenView>) -> FmtView {
    let brk = breaks_before(st, t, line, next);
    let lines = if brk.0 {
        st.lines.push(st.cur)
    } else {
        st.lines
    };
    let depth = if closes(t) && st.depth > 0 {
        (st.depth - 1) as nat
    } else {
        st.depth
    };
    let lead = depth == 0 && lines.len() > 0 && (starts_decl(t) || t is Comment) && !(
    st.prev is Some && st.prev->0 is Comment);
    FmtView {
        lines,
        cur: if brk.0 || st.cur.text.len() == 0 {
            OutView { indent: depth, text: Seq::empty(), blank: brk.1 || lead }
        } else {
            st.cur
        },
        spacing: if brk.0 {
            fresh_line()
        } else {
            st.spacing
        },
        depth,
        ctx: if closes(t) {
            st.ctx.drop_last()
        } else {
            st.ctx
        },
        ..st
    }
}

/// The state of the formatter behind a token, from the one in front of it.
pub open spec fn fmt_emit(st: FmtView, t: TokenView, line: nat) -> FmtView {
    let kind = opened_kind(t, st.member);
    FmtView {
        cur: OutView {
            text: st.cur.text + (if space_before(st.spacing, t) {
                " "@
            } else {
                ""@
            }) + token_text(t),
            ..st.cur
        },
        spacing: line_step(st.spacing, t),
        depth: if opens(t) {
            st.depth + 1
        } else {
            st.depth
        },
        ctx: if opens(t) {
            st.ctx.push(kind)
        } else {
            st.ctx
        },
        member: if t == TokenView::Sym(Sym::LBrace) {
            None
        } else if !opens(t) && starts_decl(t) && st.depth == 0 {
            member_kind(t, st.member)
        } else {
            st.member
        },
        force: opens(t) && lists_members(kind),
        prev_end: line + (match t {
            TokenView::Str(s) => breaks_in(s),
            _ => 0,
        }),
        prev: Some(t),
        ..st
    }
}

/// The state of the formatter behind a token.
pub open spec fn fmt_step(st: FmtView, t: TokenView, line: nat, next: Option<TokenView>) -> FmtView {
    fmt_emit(fmt_head(st, t, line, next), t, line)
}

/// The token at an index, where there is one.
pub open spec fn token_at(toks: Seq<PlacedView>, i: int) -> Option<TokenView> {
    if 0 <= i < toks.len() {
        Some(toks[i].token)
    } else {
        None
    }
}

/// The state of the formatter behind the first `n` tokens. What follows the last token is the end of
/// the source.
pub open spec fn fmt_run(toks: Seq<PlacedView>, n: int) -> FmtView
    decreases n,
{
    if n <= 0 || n > toks.len() {
        fmt_start()
    } else {
        fmt_step(
            fmt_run(toks, n - 1),
            toks[n - 1].token,
            toks[n - 1].line,
            token_at(toks, n),
        )
    }
}

/// The output lines of a token list.
pub open spec fn fmt_lines(toks: Seq<PlacedView>) -> Seq<OutView> {
    let st = fmt_run(toks, toks.len() as int);
    if st.cur.text.len() > 0 {
        st.lines.push(st.cur)
    } else {
        st.lines
    }
}

/// Two spaces for each level.
pub open spec fn indent_text(n: nat) -> Seq<char>
    decreases n,
{
    if n == 0 {
        Seq::empty()
    } else {
        indent_text((n - 1) as nat) + "  "@
    }
}

/// The text of the first `n` output lines.
pub open spec fn render_text(ls: Seq<OutView>, n: int) -> Seq<char>
    decreases n,
{
    if n <= 0 || n > ls.len() {
        Seq::empty()
    } else {
        render_text(ls, n - 1) + (if ls[n - 1].blank && n > 1 {
            "\n"@
        } else {
            ""@
        }) + indent_text(ls[n - 1].indent) + trim_back(ls[n - 1].text) + "\n"@
    }
}

/// A source in canonical form.
pub open spec fn format_text(src: Seq<char>) -> Seq<char> {
    let ls = fmt_lines(tokens_of(src));
    render_text(ls, ls.len() as int)
}

/// How many of the first `n` tokens open a block, a list or a group, less those that close one.
pub open spec fn balance(toks: Seq<PlacedView>, n: int) -> int
    decreases n,
{
    if n <= 0 || n > toks.len() {
        0
    } else {
        balance(toks, n - 1) + (if opens(toks[n - 1].token) {
            1int
        } else if closes(toks[n - 1].token) {
            -1
        } else {
            0
        })
    }
}

/// Whether no token stands behind a closing token that closes nothing.
pub open spec fn well_closed(toks: Seq<PlacedView>) -> bool {
    forall|i: int| 0 <= i < toks.len() ==> #[trigger] balance(toks, i) >= 0
}

fn is_close(t: &Token) -> (r: bool)
    ensures
        r == closes(t@),
{
    is_sym(t, Sym::RBrace) || is_sym(t, Sym::RBracket) || is_sym(t, Sym::RParen)
}

fn is_open(t: &Token) -> (r: bool)
    ensures
        r == opens(t@),
{
    is_sym(t, Sym::LBrace) || is_sym(t, Sym::LBracket) || is_sym(t, Sym::LParen)
}

/// Whether no token of a source stands behind a closing token that closes nothing.
pub fn closes_match(src: &str) -> (r: bool)
    requires
        src@.len() + 8 <= usize::MAX,
    ensures
        r == well_closed(tokens_of(src@)),
{
    let toks = lex_with_lines(src);
    let ghost ts = placed_views(toks@);
    let mut depth: usize = 0;
    let n: usize = toks.len();
    let mut i: usize = 0;
    while i < n
        invariant
            i <= n,
            n == toks@.len(),
            ts == placed_views(toks@),
            ts == tokens_of(src@),
            depth == balance(ts, i as int),
            depth <= i,
            forall|j: int| 0 <= j < i ==> #[trigger] balance(ts, j) >= 0,
        decreases n - i,
    {
        proof {
            assert(ts[i as int].token == toks@[i as int].token@);
        }
        if is_open(&toks[i].token) {
            depth = depth + 1;
        } else if is_close(&toks[i].token) {
            if depth == 0 {
                proof {
                    assert(balance(ts, i + 1) == -1);
                }
                return i + 1 == n;
            }
            depth = depth - 1;
        }
        i = i + 1;
    }
    true
}

fn count_breaks(s: &str) -> (r: usize)
    ensures
        r == breaks_in(s@),
{
    let b = chars_of(s);
    let n: usize = b.len();
    let mut k: usize = 0;
    let mut i: usize = 0;
    proof {
        assert(b@.subrange(0, 0) =~= Seq::<char>::empty());
    }
    while i < n
        invariant
            i <= n,
            n == b@.len(),
            k <= i,
            k == breaks_in(b@.subrange(0, i as int)),
        decreases n - i,
    {
        proof {
            let t = b@.subrange(0, i + 1);
            assert(t.drop_last() =~= b@.subrange(0, i as int));
            assert(t.last() == b@[i as int]);
        }
        if b[i] == '\n' {
            k = k + 1;
        }
        i = i + 1;
    }
    proof {
        assert(b@.subrange(0, n as int) =~= s@);
    }
    k
}

fn indent_src(n: usize) -> (r: String)
    ensures
        r@ == indent_text(n as nat),
{
    let mut out = String::new();
    let mut i: usize = 0;
    while i < n
        invariant
            i <= n,
            out@ == indent_text(i as nat),
        decreases n - i,
    {
        out.append("  ");
        i = i + 1;
    }
    out
}

fn render(lines: &Vec<OutLine>) -> (r: String)
    ensures
        r@ == render_text(out_views(lines@), lines@.len() as int),
{
    let mut out = String::new();
    let n: usize = lines.len();
    let mut i: usize = 0;
    while i < n
        invariant
            i <= n,
            n == lines@.len(),
            out@ == render_text(out_views(lines@), i as int),
        decreases n - i,
    {
        let l = &lines[i];
        proof {
            assert(out_views(lines@)[i as int] == l@);
        }
        out.append(
            if l.blank && i > 0 {
                "\n"
            } else {
                ""
            },
        );
        out.append(&indent_src(l.indent));
        out.append(&trim_end(&l.text));
        out.append("\n");
        i = i + 1;
    }
    out
}

struct FmtState {
    lines: Vec<OutLine>,
    cur: OutLine,
    spacing: LineState,
    depth: usize,
    ctx: Vec<Ctx>,
    member: Option<Ctx>,
    force: bool,
    prev_end: u128,
}

spec fn fmt_view(st: FmtState, toks: Seq<PlacedView>, i: int) -> FmtView {
    FmtView {
        lines: out_views(st.lines@),
        cur: st.cur@,
        spacing: line_view(st.spacing, toks),
        depth: st.depth as nat,
        ctx: st.ctx@,
        member: st.member,
        force: st.force,
        prev_end: st.prev_end as nat,
        prev: token_at(toks, i - 1),
    }
}

fn breaks_here(st: &FmtState, toks: &Vec<Placed>, i: usize) -> (r: (bool, bool))
    requires
        i < toks@.len(),
        st.ctx@.len() > 0,
        st.prev_end < 0x2_0000_0000_0000_0000,
    ensures
        r == breaks_before(
            fmt_view(*st, placed_views(toks@), i as int),
            placed_views(toks@)[i as int].token,
            placed_views(toks@)[i as int].line,
            token_at(placed_views(toks@), i + 1),
        ),
{
    let n: usize = toks.len();
    let t = &toks[i].token;
    let line: u128 = toks[i].line as u128;
    let c = st.ctx[st.ctx.len() - 1];
    proof {
        assert(i < n);
        assert(placed_views(toks@)[i as int] == toks@[i as int]@);
    }
    if st.cur.text.as_str().unicode_len() == 0 {
        (false, false)
    } else if st.force {
        (true, false)
    } else if line > st.prev_end {
        (true, line > st.prev_end + 1)
    } else {
        let next = if i + 1 < n {
            Some(&toks[i + 1].token)
        } else {
            None
        };
        let prev = if i > 0 {
            Some(&toks[i - 1].token)
        } else {
            None
        };
        proof {
            assert(placed_views(toks@)[i as int].token == t@);
            if i + 1 < toks@.len() {
                assert(placed_views(toks@)[i + 1].token == toks@[i + 1].token@);
            }
            if i > 0 {
                assert(placed_views(toks@)[i - 1].token == toks@[i - 1].token@);
            }
        }
        let brk = c != Ctx::Normal && (member_starts_here(c, t, next, prev) || is_sym(
            t,
            Sym::RBrace,
        ));
        (brk, false)
    }
}

spec fn fits_tokens(st: FmtState, i: int) -> bool {
    &&& st.depth <= i
    &&& st.prev_end < 0x2_0000_0000_0000_0000
    &&& st.spacing.prev is Some ==> st.spacing.prev->0 < i
    &&& st.spacing.gdepth <= i
    &&& st.spacing.pending <= i
}

fn begin_line(st: &mut FmtState, toks: &Vec<Placed>, i: usize)
    requires
        i < toks@.len(),
        old(st).ctx@.len() > 0,
        fits_tokens(*old(st), i as int),
    ensures
        fmt_view(*final(st), placed_views(toks@), i as int) == fmt_head(
            fmt_view(*old(st), placed_views(toks@), i as int),
            placed_views(toks@)[i as int].token,
            placed_views(toks@)[i as int].line,
            token_at(placed_views(toks@), i + 1),
        ),
        fits_tokens(*final(st), i as int),
{
    let brk = breaks_here(st, toks, i);
    let ghost ts = placed_views(toks@);
    let ghost before = fmt_view(*st, ts, i as int);
    let t = &toks[i].token;
    proof {
        assert(ts[i as int] == toks@[i as int]@);
        if i > 0 {
            assert(ts[i - 1].token == toks@[i - 1].token@);
        }
    }
    let behind_comment = if i > 0 {
        match &toks[i - 1].token {
            Token::Comment(_) => true,
            _ => false,
        }
    } else {
        false
    };
    if brk.0 {
        let mut done = OutLine { indent: 0, text: String::new(), blank: false };
        std::mem::swap(&mut done, &mut st.cur);
        let ghost old_lines = st.lines@;
        let ghost v = done@;
        st.lines.push(done);
        st.spacing = LineState { prev: None, gdepth: 0, pending: 0, unary: false, point: false };
        proof {
            assert(out_views(st.lines@) =~= out_views(old_lines).push(v));
        }
    }
    if is_close(t) {
        if st.depth > 0 {
            st.depth = st.depth - 1;
        }
        let ghost old_ctx = st.ctx@;
        let _ = st.ctx.pop();
        proof {
            assert(st.ctx@ =~= old_ctx.drop_last());
        }
    }
    if st.cur.text.as_str().unicode_len() == 0 {
        st.cur.indent = st.depth;
        let comment = match t {
            Token::Comment(_) => true,
            _ => false,
        };
        let lead = st.depth == 0 && st.lines.len() > 0 && (is_decl_start(t) || comment)
            && !behind_comment;
        st.cur.blank = brk.1 || lead;
        proof {
            assert(st.cur.text@ =~= Seq::empty());
        }
    }
    proof {
        let after = fmt_head(before, ts[i as int].token, ts[i as int].line, token_at(ts, i + 1));
        let now = fmt_view(*st, ts, i as int);
        assert(out_views(st.lines@).len() == st.lines@.len());
        assert(now.lines == after.lines);
        assert(now.depth == after.depth);
        assert(now.ctx == after.ctx);
        assert(now.spacing == after.spacing);
        assert(now.cur == after.cur);
    }
}

fn put_token(st: &mut FmtState, toks: &Vec<Placed>, i: usize)
    requires
        i < toks@.len(),
        fits_tokens(*old(st), i as int),
    ensures
        fmt_view(*final(st), placed_views(toks@), i + 1) == fmt_emit(
            fmt_view(*old(st), placed_views(toks@), i as int),
            placed_views(toks@)[i as int].token,
            placed_views(toks@)[i as int].line,
        ),
        fits_tokens(*final(st), i + 1),
{
    let n: usize = toks.len();
    let ghost ts = placed_views(toks@);
    let ghost before = fmt_view(*st, ts, i as int);
    let t = &toks[i].token;
    proof {
        assert(i < n);
        assert(ts[i as int] == toks@[i as int]@);
    }
    let space = space_and_update(&mut st.spacing, toks, i);
    st.cur.text.append(
        if space {
            " "
        } else {
            ""
        },
    );
    st.cur.text.append(&token_src(t));
    st.force = false;
    if is_open(t) {
        let kind = if is_sym(t, Sym::LBrace) {
            match st.member {
                Some(c) => c,
                None => Ctx::Normal,
            }
        } else {
            Ctx::Normal
        };
        if is_sym(t, Sym::LBrace) {
            st.member = None;
        }
        st.ctx.push(kind);
        st.depth = st.depth + 1;
        st.force = kind != Ctx::Normal;
    } else if is_decl_start(t) && st.depth == 0 {
        st.member = match t {
            Token::Sym(Sym::Model) => Some(Ctx::Model),
            Token::Identifier(w) => if same(w, "enum") {
                Some(Ctx::Enum)
            } else if same(w, "endpoint") {
                Some(Ctx::Endpoint)
            } else {
                st.member
            },
            _ => st.member,
        };
    }
    let nl: usize = match t {
        Token::Str(s) => count_breaks(s),
        _ => 0,
    };
    st.prev_end = toks[i].line as u128 + nl as u128;
    proof {
        let after = fmt_emit(before, ts[i as int].token, ts[i as int].line);
        let now = fmt_view(*st, ts, i + 1);
        assert(now.cur.text =~= after.cur.text);
        assert(now.cur == after.cur);
        assert(now.member == after.member);
        assert(now.ctx =~= after.ctx);
        assert(now.force == after.force);
        assert(now.prev_end == after.prev_end);
        assert(now.spacing == after.spacing);
    }
}

/// Formats a source: canonical indentation and spacing, the declarations, comments and line breaks
/// kept. A float literal is printed with its own digits, whatever their number.
pub fn format(src: &str) -> (r: String)
    requires
        src@.len() + 8 <= usize::MAX,
        well_closed(tokens_of(src@)),
    ensures
        r@ == format_text(src@),
{
    let toks = lex_with_lines(src);
    let ghost ts = placed_views(toks@);
    let n: usize = toks.len();
    let mut ctx: Vec<Ctx> = Vec::new();
    ctx.push(Ctx::Normal);
    let mut st = FmtState {
        lines: Vec::new(),
        cur: OutLine { indent: 0, text: String::new(), blank: false },
        spacing: LineState { prev: None, gdepth: 0, pending: 0, unary: false, point: false },
        depth: 0,
        ctx,
        member: None,
        force: false,
        prev_end: 0,
    };
    proof {
        assert(out_views(st.lines@) =~= Seq::empty());
        assert(st.ctx@ =~= seq![Ctx::Normal]);
        assert(st.cur.text@ =~= Seq::empty());
        assert(fmt_view(st, ts, 0) == fmt_run(ts, 0));
    }
    let mut i: usize = 0;
    while i < n
        invariant
            i <= n,
            n == toks@.len(),
            ts == placed_views(toks@),
            well_closed(ts),
            fmt_view(st, ts, i as int) == fmt_run(ts, i as int),
            st.ctx@.len() == balance(ts, i as int) + 1,
            fits_tokens(st, i as int),
        decreases n - i,
    {
        proof {
            assert(balance(ts, i as int) >= 0);
            assert(fmt_view(st, ts, i as int).ctx == st.ctx@);
        }
        begin_line(&mut st, &toks, i);
        put_token(&mut st, &toks, i);
        i = i + 1;
        proof {
            assert(fmt_view(st, ts, i as int).ctx == st.ctx@);
        }
    }
    if st.cur.text.as_str().unicode_len() > 0 {
        let mut done = OutLine { indent: 0, text: String::new(), blank: false };
        std::mem::swap(&mut done, &mut st.cur);
        let ghost old_lines = st.lines@;
        let ghost v = done@;
        st.lines.push(done);
        proof {
            assert(out_views(st.lines@) =~= out_views(old_lines).push(v));
        }
    }
    proof {
        assert(out_views(st.lines@).len() == st.lines@.len());
    }
    render(&st.lines)
}

} // verus!
