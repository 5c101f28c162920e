//! Tokens of the source language.
use vstd::prelude::*;
use vstd::string::*;

use crate::text::same;

verus! {

/// A token with a fixed spelling: a keyword or a mark.
#[derive(Debug, Clone, Copy, PartialEq, Eq, Structural)]
pub enum Sym {
    Server,
    Ui,
    Secret,
    Synced,
    Local,
    Model,
    State,
    Declassify,
    Raw,
    Auth,
    Await,
    Try,
    Catch,
    Bind,
    NoneLit,
    Fn,
    Let,
    Return,
    True,
    False,
    Assign,
    Eq,
    NotEq,
    Bang,
    Colon,
    Question,
    Comma,
    Dot,
    DotDot,
    Arrow,
    Plus,
    Minus,
    Star,
    Slash,
    LAngle,
    RAngle,
    LtEq,
    GtEq,
    And,
    Or,
    LBrace,
    RBrace,
    LParen,
    RParen,
    LBracket,
    RBracket,
    EOF,
}

/// A token. A float literal is held as its text, and what starts no token as the character that it is.
#[derive(Debug)]
pub enum Token {
    Identifier(String),
    Int(i64),
    Float(String),
    Str(String),
    Comment(String),
    Illegal(char),
    Sym(Sym),
}

/// A token, by its texts.
pub enum TokenView {
    Identifier(Seq<char>),
    Int(int),
    Float(Seq<char>),
    Str(Seq<char>),
    Comment(Seq<char>),
    Illegal(char),
    Sym(Sym),
}

impl View for Token {
    type V = TokenView;

    open spec fn view(&self) -> TokenView {
        match *self {
            Token::Identifier(s) => TokenView::Identifier(s@),
            Token::Int(n) => TokenView::Int(n as int),
            Token::Float(s) => TokenView::Float(s@),
            Token::Str(s) => TokenView::Str(s@),
            Token::Comment(s) => TokenView::Comment(s@),
            Token::Illegal(c) => TokenView::Illegal(c),
            Token::Sym(s) => TokenView::Sym(s),
        }
    }
}

/// The keyword that a word is, where it is one.
pub open spec fn keyword(w: Seq<char>) -> Option<Sym> {
    if w == "server"@ {
        Some(Sym::Server)
    } else if w == "ui"@ {
        Some(Sym::Ui)
    } else if w == "secret"@ {
        Some(Sym::Secret)
    } else if w == "synced"@ {
        Some(Sym::Synced)
    } else if w == "local"@ {
        Some(Sym::Local)
    } else if w == "model"@ {
        Some(Sym::Model)
    } else if w == "state"@ {
        Some(Sym::State)
    } else if w == "declassify"@ {
        Some(Sym::Declassify)
    } else if w == "raw"@ {
        Some(Sym::Raw)
    } else if w == "auth"@ {
        Some(Sym::Auth)
    } else if w == "await"@ {
        Some(Sym::Await)
    } else if w == "try"@ {
        Some(Sym::Try)
    } else if w == "catch"@ {
        Some(Sym::Catch)
    } else if w == "bind"@ {
        Some(Sym::Bind)
    } else if w == "none"@ {
        Some(Sym::NoneLit)
    } else if w == "fn"@ {
        Some(Sym::Fn)
    } else if w == "let"@ {
        Some(Sym::Let)
    } else if w == "return"@ {
        Some(Sym::Return)
    } else if w == "true"@ {
        Some(Sym::True)
    } else if w == "false"@ {
        Some(Sym::False)
    } else {
        None
    }
}

/// The keyword that a word is, where it is one.
pub fn lookup_keyword(w: &str) -> (r: Option<Sym>)
    ensures
        r == keyword(w@),
{
    if same(w, "server") {
        Some(Sym::Server)
    } else if same(w, "ui") {
        Some(Sym::Ui)
    } else if same(w, "secret") {
        Some(Sym::Secret)
    } else if same(w, "synced") {
        Some(Sym::Synced)
    } else if same(w, "local") {
        Some(Sym::Local)
    } else if same(w, "model") {
        Some(Sym::Model)
    } else if same(w, "state") {
        Some(Sym::State)
    } else if same(w, "declassify") {
        Some(Sym::Declassify)
    } else if same(w, "raw") {
        Some(Sym::Raw)
    } else if same(w, "auth") {
        Some(Sym::Auth)
    } else if same(w, "await") {
        Some(Sym::Await)
    } else if same(w, "try") {
        Some(Sym::Try)
    } else if same(w, "catch") {
        Some(Sym::Catch)
    } else if same(w, "bind") {
        Some(Sym::Bind)
    } else if same(w, "none") {
        Some(Sym::NoneLit)
    } else if same(w, "fn") {
        Some(Sym::Fn)
    } else if same(w, "let") {
        Some(Sym::Let)
    } else if same(w, "return") {
        Some(Sym::Return)
    } else if same(w, "true") {
        Some(Sym::True)
    } else if same(w, "false") {
        Some(Sym::False)
    } else {
        None
    }
}

/// The spelling of a fixed token.
pub open spec fn sym_text(s: Sym) -> Seq<char> {
    match s {
        Sym::Server => "server"@,
        Sym::Ui => "ui"@,
        Sym::Secret => "secret"@,
        Sym::Synced => "synced"@,
        Sym::Local => "local"@,
        Sym::Model => "model"@,
        Sym::State => "state"@,
        Sym::Declassify => "declassify"@,
        Sym::Raw => "raw"@,
        Sym::Auth => "auth"@,
        Sym::Await => "await"@,
        Sym::Try => "try"@,
        Sym::Catch => "catch"@,
        Sym::Bind => "bind"@,
        Sym::NoneLit => "none"@,
        Sym::Fn => "fn"@,
        Sym::Let => "let"@,
        Sym::Return => "return"@,
        Sym::True => "true"@,
        Sym::False => "false"@,
        Sym::Assign => "="@,
        Sym::Eq => "=="@,
        Sym::NotEq => "!="@,
        Sym::Bang => "!"@,
        Sym::Colon => ":"@,
        Sym::Question => "?"@,
        Sym::Comma => ","@,
        Sym::Dot => "."@,
        Sym::DotDot => ".."@,
        Sym::Arrow => "->"@,
        Sym::Plus => "+"@,
        Sym::Minus => "-"@,
        Sym::Star => "*"@,
        Sym::Slash => "/"@,
        Sym::LAngle => "<"@,
        Sym::RAngle => ">"@,
        Sym::LtEq => "<="@,
        Sym::GtEq => ">="@,
        Sym::And => "&&"@,
        Sym::Or => "||"@,
        Sym::LBrace => "{"@,
        Sym::RBrace => "}"@,
        Sym::LParen => "("@,
        Sym::RParen => ")"@,
        Sym::LBracket => "["@,
        Sym::RBracket => "]"@,
        Sym::EOF => ""@,
    }
}

/// The spelling of a fixed token.
pub fn sym_label(s: Sym) -> (r: &'static str)
    ensures
        r@ == sym_text(s),
{
    match s {
        Sym::Server => "server",
        Sym::Ui => "ui",
        Sym::Secret => "secret",
        Sym::Synced => "synced",
        Sym::Local => "local",
        Sym::Model => "model",
        Sym::State => "state",
        Sym::Declassify => "declassify",
        Sym::Raw => "raw",
        Sym::Auth => "auth",
        Sym::Await => "await",
        Sym::Try => "try",
        Sym::Catch => "catch",
        Sym::Bind => "bind",
        Sym::NoneLit => "none",
        Sym::Fn => "fn",
        Sym::Let => "let",
        Sym::Return => "return",
        Sym::True => "true",
        Sym::False => "false",
        Sym::Assign => "=",
        Sym::Eq => "==",
        Sym::NotEq => "!=",
        Sym::Bang => "!",
        Sym::Colon => ":",
        Sym::Question => "?",
        Sym::Comma => ",",
        Sym::Dot => ".",
        Sym::DotDot => "..",
        Sym::Arrow => "->",
        Sym::Plus => "+",
        Sym::Minus => "-",
        Sym::Star => "*",
        Sym::Slash => "/",
        Sym::LAngle => "<",
        Sym::RAngle => ">",
        Sym::LtEq => "<=",
        Sym::GtEq => ">=",
        Sym::And => "&&",
        Sym::Or => "||",
        Sym::LBrace => "{",
        Sym::RBrace => "}",
        Sym::LParen => "(",
        Sym::RParen => ")",
        Sym::LBracket => "[",
        Sym::RBracket => "]",
        Sym::EOF => "",
    }
}

} // verus!
