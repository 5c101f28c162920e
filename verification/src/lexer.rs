//! The lexer: source text to tokens, with the place of each.
use vstd::prelude::*;
use vstd::string::*;

use crate::num::{digits_value, is_digit};
use crate::scan::trim_back;
use crate::text::{chars_of, slice_text};
use crate::token::{keyword, lookup_keyword, Sym, Token, TokenView};
use crate::unicode::{char_is_alpha, char_is_space};

verus! {

/// The character at a position; behind the end, the character 0.
pub open spec fn chr(s: Seq<char>, p: int) -> char {
    if 0 <= p < s.len() {
        s[p]
    } else {
        '\0'
    }
}

/// The line of a position: 1, and one more for each line break in front of it.
pub open spec fn line_at(s: Seq<char>, p: int) -> nat
    decreases p,
{
    if p <= 0 {
        1
    } else if chr(s, p - 1) == '\n' {
        line_at(s, p - 1) + 1
    } else {
        line_at(s, p - 1)
    }
}

/// The column of a position in its line, from 1 on.
pub open spec fn col_at(s: Seq<char>, p: int) -> nat
    decreases p,
{
    if p <= 0 || chr(s, p - 1) == '\n' {
        1
    } else {
        col_at(s, p - 1) + 1
    }
}

proof fn lemma_place_bounds(s: Seq<char>, p: int)
    requires
        p >= 0,
    ensures
        1 <= line_at(s, p) <= p + 1,
        1 <= col_at(s, p) <= p + 1,
    decreases p,
{
    if p > 0 {
        lemma_place_bounds(s, p - 1);
    }
}

/// The first position from `p` on that holds no white space.
pub open spec fn skip_space(s: Seq<char>, p: int) -> int
    decreases s.len() - p,
{
    if 0 <= p < s.len() && char_is_space(s[p]) {
        skip_space(s, p + 1)
    } else {
        p
    }
}

/// The first position from `p` on that ends the line.
pub open spec fn line_end(s: Seq<char>, p: int) -> int
    decreases s.len() - p,
{
    if chr(s, p) == '\n' || chr(s, p) == '\0' {
        p
    } else {
        line_end(s, p + 1)
    }
}

/// The first position from `p` on that ends a text literal.
pub open spec fn quote_end(s: Seq<char>, p: int) -> int
    decreases s.len() - p,
{
    if chr(s, p) == '"' || chr(s, p) == '\0' {
        p
    } else {
        quote_end(s, p + 1)
    }
}

/// Whether a character can stand in a word.
pub open spec fn word_char(c: char) -> bool {
    char_is_alpha(c) || c == '_' || is_digit(c)
}

/// The first position from `p` on that does not belong to a word.
pub open spec fn word_end(s: Seq<char>, p: int) -> int
    decreases s.len() - p,
{
    if 0 <= p < s.len() && word_char(s[p]) {
        word_end(s, p + 1)
    } else {
        p
    }
}

/// The first position from `p` on that holds no digit.
pub open spec fn digits_end(s: Seq<char>, p: int) -> int
    decreases s.len() - p,
{
    if 0 <= p < s.len() && is_digit(s[p]) {
        digits_end(s, p + 1)
    } else {
        p
    }
}

pub proof fn lemma_skip_space(s: Seq<char>, p: int)
    requires
        0 <= p,
    ensures
        p <= skip_space(s, p),
        p <= s.len() ==> skip_space(s, p) <= s.len(),
        p > s.len() ==> skip_space(s, p) == p,
        !char_is_space(chr(s, skip_space(s, p))),
    decreases s.len() - p,
{
    if p < s.len() && char_is_space(s[p]) {
        lemma_skip_space(s, p + 1);
    }
}

pub proof fn lemma_line_end(s: Seq<char>, p: int)
    requires
        0 <= p <= s.len(),
    ensures
        p <= line_end(s, p) <= s.len(),
        chr(s, line_end(s, p)) == '\n' || chr(s, line_end(s, p)) == '\0',
    decreases s.len() - p,
{
    if chr(s, p) != '\n' && chr(s, p) != '\0' {
        lemma_line_end(s, p + 1);
    }
}

pub proof fn lemma_quote_end(s: Seq<char>, p: int)
    requires
        0 <= p <= s.len(),
    ensures
        p <= quote_end(s, p) <= s.len(),
    decreases s.len() - p,
{
    if chr(s, p) != '"' && chr(s, p) != '\0' {
        lemma_quote_end(s, p + 1);
    }
}

pub proof fn lemma_word_end(s: Seq<char>, p: int)
    requires
        0 <= p <= s.len(),
    ensures
        p <= word_end(s, p) <= s.len(),
    decreases s.len() - p,
{
    if p < s.len() && word_char(s[p]) {
        lemma_word_end(s, p + 1);
    }
}

pub proof fn lemma_digits_end(s: Seq<char>, p: int)
    requires
        0 <= p <= s.len(),
    ensures
        p <= digits_end(s, p) <= s.len(),
        forall|i: int| p <= i < digits_end(s, p) ==> is_digit(#[trigger] s[i]),
    decreases s.len() - p,
{
    if p < s.len() && is_digit(s[p]) {
        lemma_digits_end(s, p + 1);
    }
}

/// A token, where it starts, and the position behind it.
pub struct Lexed {
    pub token: TokenView,
    pub start: int,
    pub end: int,
}

/// A fixed token of `n` characters at a position.
pub open spec fn mark(s: Sym, p: int, n: int) -> Lexed {
    Lexed { token: TokenView::Sym(s), start: p, end: p + n }
}

/// One mark where the next character is `next`, and another where it is not.
pub open spec fn mark_or(s: Seq<char>, p: int, next: char, two: Sym, one: Sym) -> Lexed {
    if chr(s, p + 1) == next {
        mark(two, p, 2)
    } else {
        mark(one, p, 1)
    }
}

/// A character that starts no token, at a position.
pub open spec fn unknown(c: char, p: int) -> Lexed {
    Lexed { token: TokenView::Illegal(c), start: p, end: p + 1 }
}

/// A mark of a character written twice, and otherwise that character alone, which is no token.
pub open spec fn mark_twice(s: Seq<char>, p: int, c: char, two: Sym) -> Lexed {
    if chr(s, p + 1) == c {
        mark(two, p, 2)
    } else {
        unknown(c, p)
    }
}

/// The number that a run of digits stands for; 0 where it does not fit.
pub open spec fn int_literal(t: Seq<char>) -> int {
    if digits_value(t) <= i64::MAX {
        digits_value(t) as int
    } else {
        0
    }
}

/// The number literal at a position.
pub open spec fn number_at(s: Seq<char>, p: int) -> Lexed {
    let e = digits_end(s, p);
    if chr(s, e) == '.' && is_digit(chr(s, e + 1)) {
        let f = digits_end(s, e + 1);
        Lexed { token: TokenView::Float(s.subrange(p, f)), start: p, end: f }
    } else {
        Lexed { token: TokenView::Int(int_literal(s.subrange(p, e))), start: p, end: e }
    }
}

/// The word at a position: a keyword or an identifier.
pub open spec fn word_at(s: Seq<char>, p: int) -> Lexed {
    let e = word_end(s, p);
    let w = s.subrange(p, e);
    Lexed {
        token: match keyword(w) {
            Some(k) => TokenView::Sym(k),
            None => TokenView::Identifier(w),
        },
        start: p,
        end: e,
    }
}

/// The token at a position that holds no white space and starts no comment.
pub open spec fn plain_token(s: Seq<char>, p: int) -> Lexed {
    let c = chr(s, p);
    if c == '=' {
        mark_or(s, p, '=', Sym::Eq, Sym::Assign)
    } else if c == ':' {
        mark(Sym::Colon, p, 1)
    } else if c == '?' {
        mark(Sym::Question, p, 1)
    } else if c == ',' {
        mark(Sym::Comma, p, 1)
    } else if c == '.' {
        mark_or(s, p, '.', Sym::DotDot, Sym::Dot)
    } else if c == '{' {
        mark(Sym::LBrace, p, 1)
    } else if c == '}' {
        mark(Sym::RBrace, p, 1)
    } else if c == '(' {
        mark(Sym::LParen, p, 1)
    } else if c == ')' {
        mark(Sym::RParen, p, 1)
    } else if c == '[' {
        mark(Sym::LBracket, p, 1)
    } else if c == ']' {
        mark(Sym::RBracket, p, 1)
    } else if c == '+' {
        mark(Sym::Plus, p, 1)
    } else if c == '*' {
        mark(Sym::Star, p, 1)
    } else if c == '<' {
        mark_or(s, p, '=', Sym::LtEq, Sym::LAngle)
    } else if c == '>' {
        mark_or(s, p, '=', Sym::GtEq, Sym::RAngle)
    } else if c == '!' {
        mark_or(s, p, '=', Sym::NotEq, Sym::Bang)
    } else if c == '&' {
        mark_twice(s, p, '&', Sym::And)
    } else if c == '|' {
        mark_twice(s, p, '|', Sym::Or)
    } else if c == '-' {
        mark_or(s, p, '>', Sym::Arrow, Sym::Minus)
    } else if c == '/' {
        mark(Sym::Slash, p, 1)
    } else if c == '"' {
        let e = quote_end(s, p + 1);
        Lexed { token: TokenView::Str(s.subrange(p + 1, e)), start: p, end: e + 1 }
    } else if c == '\0' {
        mark(Sym::EOF, p, 1)
    } else if char_is_alpha(c) || c == '_' {
        word_at(s, p)
    } else if is_digit(c) {
        number_at(s, p)
    } else {
        unknown(c, p)
    }
}

/// The token that is read from a position on. A comment is skipped, or a token of its own where
/// comments are kept.
pub open spec fn lex_at(s: Seq<char>, p: int, keep: bool) -> Lexed
    decreases s.len() - p,
{
    let q = skip_space(s, p);
    if p >= 0 && chr(s, q) == '/' && chr(s, q + 1) == '/' {
        let e = line_end(s, q);
        if keep {
            Lexed { token: TokenView::Comment(trim_back(s.subrange(q, e))), start: q, end: e }
        } else {
            proof {
                lemma_skip_space(s, p);
                lemma_line_end(s, q + 1);
            }
            lex_at(s, e, keep)
        }
    } else {
        plain_token(s, q)
    }
}

/// A lexer over a source text.
pub struct Lexer {
    input: Vec<char>,
    position: usize,
    line: usize,
    col: usize,
    tok_line: usize,
    tok_col: usize,
    keep: bool,
}

/// The state of a lexer: its input, the position that it reads from, the place of the last token,
/// and whether it keeps comments.
pub struct LexerView {
    pub input: Seq<char>,
    pub position: int,
    pub tok_line: nat,
    pub tok_col: nat,
    pub keep: bool,
}

impl View for Lexer {
    type V = LexerView;

    closed spec fn view(&self) -> LexerView {
        LexerView {
            input: self.input@,
            position: self.position as int,
            tok_line: self.tok_line as nat,
            tok_col: self.tok_col as nat,
            keep: self.keep,
        }
    }
}

impl Lexer {
    /// The line and column that are kept are those of the position.
    pub closed spec fn wf(&self) -> bool {
        &&& self.line == line_at(self.input@, self.position as int)
        &&& self.col == col_at(self.input@, self.position as int)
    }

    /// Whether the positions of the next token fit into a `usize`.
    pub open spec fn has_room(&self) -> bool {
        self@.position + 4 <= usize::MAX && self@.input.len() + 4 <= usize::MAX
    }

    /// A lexer at the start of a source text.
    pub fn new(input: &str) -> (r: Lexer)
        ensures
            r.wf(),
            r@ == (LexerView {
                input: input@,
                position: 0,
                tok_line: 1,
                tok_col: 1,
                keep: false,
            }),
    {
        Lexer {
            input: chars_of(input),
            position: 0,
            line: 1,
            col: 1,
            tok_line: 1,
            tok_col: 1,
            keep: false,
        }
    }

    /// The same lexer, with comments kept as tokens.
    pub fn keep_comments(self) -> (r: Lexer)
        requires
            self.wf(),
        ensures
            r.wf(),
            r@ == (LexerView { keep: true, ..self@ }),
    {
        let mut out = self;
        out.keep = true;
        out
    }

    /// The line where the last token started.
    pub fn token_line(&self) -> (r: usize)
        ensures
            r == self@.tok_line,
    {
        self.tok_line
    }

    /// The column where the last token started.
    pub fn token_col(&self) -> (r: usize)
        ensures
            r == self@.tok_col,
    {
        self.tok_col
    }

    /// Whether every character is read.
    pub fn at_end(&self) -> (r: bool)
        ensures
            r == (self@.position >= self@.input.len()),
    {
        self.position >= self.input.len()
    }

    fn at(&self, p: usize) -> (r: char)
        ensures
            r == chr(self@.input, p as int),
    {
        if p < self.input.len() {
            self.input[p]
        } else {
            '\0'
        }
    }

    fn read_char(&mut self)
        requires
            old(self).wf(),
            old(self)@.position + 2 <= usize::MAX,
        ensures
            final(self).wf(),
            final(self)@ == (LexerView { position: old(self)@.position + 1, ..old(self)@ }),
    {
        proof {
            lemma_place_bounds(self.input@, self.position as int);
            assert(self.line as nat == line_at(self.input@, self.position as int));
        }
        if self.at(self.position) == '\n' {
            self.line = self.line + 1;
            self.col = 1;
        } else {
            self.col = self.col + 1;
        }
        self.position = self.position + 1;
    }

    fn move_to(&mut self, p: usize)
        requires
            old(self).wf(),
            old(self)@.position <= p,
            p + 1 <= usize::MAX,
        ensures
            final(self).wf(),
            final(self)@ == (LexerView { position: p as int, ..old(self)@ }),
    {
        while self.position < p
            invariant
                self.wf(),
                self@.position <= p,
                p + 1 <= usize::MAX,
                self@ == (LexerView { position: self@.position, ..old(self)@ }),
            decreases p - self@.position,
        {
            self.read_char();
        }
    }

    fn find_space_end(&self, from: usize) -> (r: usize)
        ensures
            r == skip_space(self@.input, from as int),
    {
        let mut p: usize = from;
        while p < self.input.len() && self.input[p].is_whitespace()
            invariant
                skip_space(self@.input, from as int) == skip_space(self@.input, p as int),
            decreases self@.input.len() - p,
        {
            p = p + 1;
        }
        p
    }

    fn find_line_end(&self, from: usize) -> (r: usize)
        requires
            from <= self@.input.len(),
        ensures
            r == line_end(self@.input, from as int),
    {
        let n: usize = self.input.len();
        let mut p: usize = from;
        while self.at(p) != '\n' && self.at(p) != '\0'
            invariant
                n == self@.input.len(),
                from <= p <= n,
                line_end(self@.input, from as int) == line_end(self@.input, p as int),
            decreases self@.input.len() - p,
        {
            p = p + 1;
        }
        p
    }

    fn find_quote_end(&self, from: usize) -> (r: usize)
        requires
            from <= self@.input.len(),
        ensures
            r == quote_end(self@.input, from as int),
    {
        let n: usize = self.input.len();
        let mut p: usize = from;
        while self.at(p) != '"' && self.at(p) != '\0'
            invariant
                n == self@.input.len(),
                from <= p <= n,
                quote_end(self@.input, from as int) == quote_end(self@.input, p as int),
            decreases self@.input.len() - p,
        {
            p = p + 1;
        }
        p
    }

    fn find_word_end(&self, from: usize) -> (r: usize)
        requires
            from <= self@.input.len(),
        ensures
            r == word_end(self@.input, from as int),
    {
        let mut p: usize = from;
        while p < self.input.len() && (self.input[p].is_alphabetic() || self.input[p] == '_' || (
        '0' <= self.input[p] && self.input[p] <= '9'))
            invariant
                from <= p <= self@.input.len(),
                word_end(self@.input, from as int) == word_end(self@.input, p as int),
            decreases self@.input.len() - p,
        {
            p = p + 1;
        }
        p
    }

    fn find_digits_end(&self, from: usize) -> (r: usize)
        requires
            from <= self@.input.len(),
        ensures
            r == digits_end(self@.input, from as int),
    {
        let mut p: usize = from;
        while p < self.input.len() && '0' <= self.input[p] && self.input[p] <= '9'
            invariant
                from <= p <= self@.input.len(),
                digits_end(self@.input, from as int) == digits_end(self@.input, p as int),
            decreases self@.input.len() - p,
        {
            p = p + 1;
        }
        p
    }

    fn slice(&self, from: usize, to: usize) -> (r: String)
        requires
            from <= to <= self@.input.len(),
        ensures
            r@ == self@.input.subrange(from as int, to as int),
    {
        slice_text(&self.input, from, to)
    }

    fn parse_digits(&self, from: usize, to: usize) -> (r: i64)
        requires
            from <= to <= self@.input.len(),
            forall|i: int| from <= i < to ==> is_digit(#[trigger] self@.input[i]),
        ensures
            r == int_literal(self@.input.subrange(from as int, to as int)),
    {
        let ghost s = self@.input;
        let mut v: i64 = 0;
        let mut p: usize = from;
        proof {
            assert(s.subrange(from as int, from as int) =~= Seq::<char>::empty());
        }
        while p < to
            invariant
                from <= p <= to <= s.len(),
                s == self@.input,
                forall|i: int| from <= i < to ==> is_digit(#[trigger] s[i]),
                v >= 0,
                v == digits_value(s.subrange(from as int, p as int)),
            decreases to - p,
        {
            let d: i64 = self.input[p] as u32 as i64 - 48;
            proof {
                let next = s.subrange(from as int, p + 1);
                assert(is_digit(s[p as int]));
                assert(next.drop_last() =~= s.subrange(from as int, p as int));
                assert(next.last() == s[p as int]);
                lemma_digits_grow(s, from as int, p + 1, to as int);
            }
            if v > (i64::MAX - d) / 10 {
                proof {
                    assert(v * 10 + d > i64::MAX) by {
                        assert(v >= (i64::MAX - d) / 10 + 1);
                    }
                }
                return 0;
            }
            v = v * 10 + d;
            p = p + 1;
        }
        v
    }

    fn read_number(&mut self) -> (t: Token)
        requires
            old(self).wf(),
            old(self).has_room(),
            old(self)@.position < old(self)@.input.len(),
            is_digit(old(self)@.input[old(self)@.position]),
        ensures
            final(self).wf(),
            t@ == number_at(old(self)@.input, old(self)@.position).token,
            final(self)@ == (LexerView {
                position: number_at(old(self)@.input, old(self)@.position).end,
                ..old(self)@
            }),
    {
        let start: usize = self.position;
        let e: usize = self.find_digits_end(start);
        proof {
            lemma_digits_end(self@.input, start as int);
        }
        if self.at(e) == '.' && '0' <= self.at(e + 1) && self.at(e + 1) <= '9' {
            let f: usize = self.find_digits_end(e + 1);
            proof {
                lemma_digits_end(self@.input, e + 1);
            }
            let text = self.slice(start, f);
            self.move_to(f);
            Token::Float(text)
        } else {
            let n: i64 = self.parse_digits(start, e);
            self.move_to(e);
            Token::Int(n)
        }
    }

    fn read_identifier(&mut self) -> (t: Token)
        requires
            old(self).wf(),
            old(self).has_room(),
            old(self)@.position < old(self)@.input.len(),
        ensures
            final(self).wf(),
            t@ == word_at(old(self)@.input, old(self)@.position).token,
            final(self)@ == (LexerView {
                position: word_at(old(self)@.input, old(self)@.position).end,
                ..old(self)@
            }),
    {
        let start: usize = self.position;
        let e: usize = self.find_word_end(start);
        proof {
            lemma_word_end(self@.input, start as int);
        }
        let w = self.slice(start, e);
        self.move_to(e);
        match lookup_keyword(&w) {
            Some(k) => Token::Sym(k),
            None => Token::Identifier(w),
        }
    }

    fn one(&mut self, s: Sym) -> (t: Token)
        requires
            old(self).wf(),
            old(self).has_room(),
        ensures
            final(self).wf(),
            t@ == TokenView::Sym(s),
            final(self)@ == (LexerView { position: old(self)@.position + 1, ..old(self)@ }),
    {
        self.read_char();
        Token::Sym(s)
    }

    fn one_or_two(&mut self, next: char, two: Sym, one: Sym) -> (t: Token)
        requires
            old(self).wf(),
            old(self).has_room(),
        ensures
            final(self).wf(),
            t@ == mark_or(old(self)@.input, old(self)@.position, next, two, one).token,
            final(self)@ == (LexerView {
                position: mark_or(old(self)@.input, old(self)@.position, next, two, one).end,
                ..old(self)@
            }),
    {
        if self.at(self.position + 1) == next {
            self.read_char();
            self.read_char();
            Token::Sym(two)
        } else {
            self.read_char();
            Token::Sym(one)
        }
    }

    fn twice(&mut self, c: char, two: Sym) -> (t: Token)
        requires
            old(self).wf(),
            old(self).has_room(),
        ensures
            final(self).wf(),
            t@ == mark_twice(old(self)@.input, old(self)@.position, c, two).token,
            final(self)@ == (LexerView {
                position: mark_twice(old(self)@.input, old(self)@.position, c, two).end,
                ..old(self)@
            }),
    {
        if self.at(self.position + 1) == c {
            self.read_char();
            self.read_char();
            Token::Sym(two)
        } else {
            self.read_char();
            Token::Illegal(c)
        }
    }

    fn read_plain(&mut self) -> (t: Token)
        requires
            old(self).wf(),
            old(self).has_room(),
        ensures
            final(self).wf(),
            t@ == plain_token(old(self)@.input, old(self)@.position).token,
            final(self)@ == (LexerView {
                position: plain_token(old(self)@.input, old(self)@.position).end,
                ..old(self)@
            }),
    {
        let c = self.at(self.position);
        if c == '=' {
            self.one_or_two('=', Sym::Eq, Sym::Assign)
        } else if c == ':' {
            self.one(Sym::Colon)
        } else if c == '?' {
            self.one(Sym::Question)
        } else if c == ',' {
            self.one(Sym::Comma)
        } else if c == '.' {
            self.one_or_two('.', Sym::DotDot, Sym::Dot)
        } else if c == '{' {
            self.one(Sym::LBrace)
        } else if c == '}' {
            self.one(Sym::RBrace)
        } else if c == '(' {
            self.one(Sym::LParen)
        } else if c == ')' {
            self.one(Sym::RParen)
        } else if c == '[' {
            self.one(Sym::LBracket)
        } else if c == ']' {
            self.one(Sym::RBracket)
        } else if c == '+' {
            self.one(Sym::Plus)
        } else if c == '*' {
            self.one(Sym::Star)
        } else if c == '<' {
            self.one_or_two('=', Sym::LtEq, Sym::LAngle)
        } else if c == '>' {
            self.one_or_two('=', Sym::GtEq, Sym::RAngle)
        } else if c == '!' {
            self.one_or_two('=', Sym::NotEq, Sym::Bang)
        } else if c == '&' {
            self.twice('&', Sym::And)
        } else if c == '|' {
            self.twice('|', Sym::Or)
        } else if c == '-' {
            self.one_or_two('>', Sym::Arrow, Sym::Minus)
        } else if c == '/' {
            self.one(Sym::Slash)
        } else if c == '"' {
            self.read_string()
        } else if c == '\0' {
            self.one(Sym::EOF)
        } else if c.is_alphabetic() || c == '_' {
            self.read_identifier()
        } else if '0' <= c && c <= '9' {
            self.read_number()
        } else {
            self.read_char();
            Token::Illegal(c)
        }
    }

    fn read_string(&mut self) -> (t: Token)
        requires
            old(self).wf(),
            old(self).has_room(),
            old(self)@.position < old(self)@.input.len(),
        ensures
            final(self).wf(),
            t@ == TokenView::Str(
                old(self)@.input.subrange(
                    old(self)@.position + 1,
                    quote_end(old(self)@.input, old(self)@.position + 1),
                ),
            ),
            final(self)@ == (LexerView {
                position: quote_end(old(self)@.input, old(self)@.position + 1) + 1,
                ..old(self)@
            }),
    {
        let start: usize = self.position + 1;
        let e: usize = self.find_quote_end(start);
        proof {
            lemma_quote_end(self@.input, start as int);
        }
        let text = self.slice(start, e);
        self.move_to(e + 1);
        Token::Str(text)
    }

    /// Reads the next token.
    pub fn next_token(&mut self) -> (t: Token)
        requires
            old(self).wf(),
            old(self).has_room(),
        ensures
            final(self).wf(),
            ({
                let x = lex_at(old(self)@.input, old(self)@.position, old(self)@.keep);
                &&& t@ == x.token
                &&& final(self)@ == (LexerView {
                    position: x.end,
                    tok_line: line_at(old(self)@.input, x.start),
                    tok_col: col_at(old(self)@.input, x.start),
                    ..old(self)@
                })
            }),
        decreases old(self)@.input.len() - old(self)@.position,
    {
        let ghost s = self@.input;
        let from: usize = self.position;
        let p: usize = self.find_space_end(from);
        proof {
            lemma_skip_space(s, from as int);
            lemma_plain_start(s, p as int);
        }
        self.move_to(p);
        self.tok_line = self.line;
        self.tok_col = self.col;
        if self.at(p) == '/' && self.at(p + 1) == '/' {
            let e: usize = self.find_line_end(p);
            proof {
                lemma_line_end(s, p as int);
                lemma_line_end(s, p + 1);
            }
            self.move_to(e);
            if self.keep {
                let text = self.slice(p, e);
                return Token::Comment(trim_end(&text));
            }
            return self.next_token();
        }
        self.read_plain()
    }
}

proof fn lemma_plain_start(s: Seq<char>, p: int)
    ensures
        plain_token(s, p).start == p,
{
}

proof fn lemma_digits_grow(s: Seq<char>, a: int, m: int, b: int)
    requires
        0 <= a <= m <= b <= s.len(),
        forall|i: int| a <= i < b ==> is_digit(#[trigger] s[i]),
    ensures
        digits_value(s.subrange(a, m)) <= digits_value(s.subrange(a, b)),
    decreases b - m,
{
    if m < b {
        lemma_digits_grow(s, a, m, b - 1);
        let t = s.subrange(a, b);
        assert(t.drop_last() =~= s.subrange(a, b - 1));
        assert(t.last() == s[b - 1]);
        assert(is_digit(s[b - 1]));
    }
}

/// A text without the white space behind it.
pub fn trim_end(s: &str) -> (r: String)
    ensures
        r@ == trim_back(s@),
{
    let b = chars_of(s);
    let mut n: usize = b.len();
    proof {
        assert(b@.subrange(0, n as int) =~= s@);
    }
    while n > 0 && b[n - 1].is_whitespace()
        invariant
            n <= b@.len(),
            trim_back(s@) == trim_back(b@.subrange(0, n as int)),
        decreases n,
    {
        proof {
            let t = b@.subrange(0, n as int);
            assert(t.last() == b@[n - 1]);
            assert(t.drop_last() =~= b@.subrange(0, n - 1));
        }
        n = n - 1;
    }
    proof {
        if n > 0 {
            assert(b@.subrange(0, n as int).last() == b@[n - 1]);
        }
    }
    slice_text(&b, 0, n)
}

/// The tokens that are read from a position on, up to and with the end.
pub open spec fn all_tokens(s: Seq<char>, p: int, keep: bool) -> Seq<TokenView>
    decreases
        (if p <= s.len() {
            s.len() + 1 - p
        } else {
            0
        }),
{
    let x = lex_at(s, p, keep);
    if x.token == TokenView::Sym(Sym::EOF) || p < 0 || p > s.len() || x.end <= p {
        seq![x.token]
    } else {
        seq![x.token] + all_tokens(s, x.end, keep)
    }
}

/// Whether a token is no comment.
pub open spec fn is_no_comment() -> spec_fn(TokenView) -> bool {
    |t: TokenView| !(t is Comment)
}

proof fn lemma_plain_end(s: Seq<char>, q: int)
    requires
        0 <= q,
        plain_token(s, q).token != TokenView::Sym(Sym::EOF),
    ensures
        plain_token(s, q).end > q,
{
    assert(q < s.len());
    lemma_quote_end(s, q + 1);
    lemma_word_end(s, q + 1);
    lemma_digits_end(s, q + 1);
    let e = digits_end(s, q);
    if e < s.len() && is_digit(s[q]) {
        lemma_digits_end(s, e + 1);
    }
}

proof fn lemma_lex_end(s: Seq<char>, p: int)
    requires
        0 <= p,
        lex_at(s, p, false).token != TokenView::Sym(Sym::EOF),
    ensures
        lex_at(s, p, false).end > p,
    decreases s.len() - p,
{
    let q = skip_space(s, p);
    lemma_skip_space(s, p);
    if chr(s, q) == '/' && chr(s, q + 1) == '/' {
        lemma_line_end(s, q);
        lemma_line_end(s, q + 1);
        lemma_lex_end(s, line_end(s, q));
    } else {
        lemma_plain_end(s, q);
    }
}

proof fn lemma_comments_removed(s: Seq<char>, p: int)
    requires
        0 <= p,
    ensures
        all_tokens(s, p, true).filter(is_no_comment()) == all_tokens(s, p, false),
        forall|i: int|
            0 <= i < all_tokens(s, p, false).len() ==> !(#[trigger] all_tokens(s, p, false)[i] is Comment),
    decreases
            (if p <= s.len() {
                s.len() + 1 - p
            } else {
                0
            }),
{
    let f = is_no_comment();
    let x = lex_at(s, p, true);
    let y = lex_at(s, p, false);
    let q = skip_space(s, p);
    lemma_skip_space(s, p);
    let one = seq![x.token];
    reveal(Seq::filter);
    assert(one.drop_last() =~= Seq::<TokenView>::empty());
    if chr(s, q) == '/' && chr(s, q + 1) == '/' {
        lemma_line_end(s, q);
        lemma_line_end(s, q + 2);
        let e = line_end(s, q);
        assert(e > p);
        assert(p <= s.len());
        assert(x.token is Comment);
        lemma_comments_removed(s, e);
        Seq::filter_distributes_over_add(one, all_tokens(s, e, true), f);
        assert(one.last() == x.token && !f(x.token));
        assert(one.drop_last().filter(f) =~= Seq::<TokenView>::empty());
        assert(one.filter(f) =~= Seq::<TokenView>::empty());
        assert(all_tokens(s, p, true).filter(f) =~= all_tokens(s, e, false));
        assert(y == lex_at(s, e, false));
        if y.token != TokenView::Sym(Sym::EOF) {
            lemma_lex_end(s, e);
        }
        assert(all_tokens(s, p, false) == all_tokens(s, e, false));
    } else {
        assert(x == y);
        assert(!(x.token is Comment));
        assert(one.filter(f) =~= one);
        if x.token == TokenView::Sym(Sym::EOF) || p > s.len() || x.end <= p {
        } else {
            lemma_comments_removed(s, x.end);
            Seq::filter_distributes_over_add(one, all_tokens(s, x.end, true), f);
            let rest = all_tokens(s, x.end, false);
            assert forall|i: int| 0 <= i < all_tokens(s, p, false).len() implies !(
            #[trigger] all_tokens(s, p, false)[i] is Comment) by {
                if i > 0 {
                    assert(all_tokens(s, p, false)[i] == rest[i - 1]);
                }
            }
        }
    }
}

/// The tokens of a source with comments kept are, but for the comments, its tokens without them; and
/// these hold no comment.
pub proof fn law_kept_comments_are_all_that_differs(s: Seq<char>)
    ensures
        all_tokens(s, 0, true).filter(is_no_comment()) == all_tokens(s, 0, false),
        forall|i: int|
            0 <= i < all_tokens(s, 0, false).len() ==> !(#[trigger] all_tokens(s, 0, false)[i] is Comment),
{
    lemma_comments_removed(s, 0);
}

} // verus!
