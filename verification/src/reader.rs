//! A reader of generated code: what an expression that stands in Rust or TypeScript text is, by the rules
//! that both languages share, and what it comes to.
use vstd::prelude::*;
use vstd::string::*;

use crate::interp::Env;
use crate::value::ValueView;

verus! {

/// An expression of either language.
pub enum Tree {
    Num(nat),
    Name(Seq<char>),
    Neg(Box<Tree>),
    Not(Box<Tree>),
    Op(Seq<char>, Box<Tree>, Box<Tree>),
    Choice(Box<Tree>, Box<Tree>, Box<Tree>),
    Call(Seq<char>, Seq<Tree>),
    List(Seq<Tree>),
    Member(Box<Tree>, Seq<char>),
    Method(Box<Tree>, Seq<char>, Seq<Tree>),
}

/// Whether a character is a decimal digit.
pub open spec fn is_numeral(c: char) -> bool {
    '0' <= c <= '9'
}

/// Whether a character can stand in a name.
pub open spec fn is_wordy(c: char) -> bool {
    is_numeral(c) || 'a' <= c <= 'z' || 'A' <= c <= 'Z' || c == '_'
}

/// Whether a text is a name.
pub open spec fn is_word(v: Seq<char>) -> bool {
    v.len() > 0 && !is_numeral(v[0]) && forall|i: int| 0 <= i < v.len() ==> is_wordy(#[trigger] v[i])
}

/// The number that digits stand for.
pub open spec fn number_of(s: Seq<char>) -> nat
    decreases s.len(),
{
    if s.len() == 0 {
        0
    } else {
        (10 * number_of(s.drop_last()) + (s.last() as int - '0' as int)) as nat
    }
}

/// The end of the run of name characters from an index on.
pub open spec fn word_end(s: Seq<char>, i: int) -> int
    decreases s.len() - i,
{
    if 0 <= i < s.len() && is_wordy(s[i]) {
        word_end(s, i + 1)
    } else {
        i
    }
}

/// Whether a text stands in another at an index.
pub open spec fn stands(s: Seq<char>, i: int, t: Seq<char>) -> bool {
    0 <= i && i + t.len() <= s.len() && s.subrange(i, i + t.len()) == t
}

/// Whether an expression ends at an index: nothing that would go on with it stands there.
pub open spec fn ends(s: Seq<char>, i: int) -> bool {
    i >= s.len() || (!is_wordy(s[i]) && s[i] != '(' && !(s[i] == '.' && i + 1 < s.len() && is_wordy(
        s[i + 1],
    )))
}

/// The expression at an index, and where it ends.
pub open spec fn read(s: Seq<char>, i: int, ts: bool) -> Option<(Tree, int)>
    decreases s.len() - i, 2int,
{
    if i < 0 || i >= s.len() {
        None
    } else if s[i] == '-' {
        match read(s, i + 1, ts) {
            Some((t, j)) => Some((Tree::Neg(Box::new(t)), j)),
            None => None,
        }
    } else if s[i] == '!' {
        match read(s, i + 1, ts) {
            Some((t, j)) => Some((Tree::Not(Box::new(t)), j)),
            None => None,
        }
    } else if !ts && s[i] == '&' {
        read(s, i + 1, ts)
    } else {
        match read_first(s, i, ts) {
            Some((t, j)) => if i < j <= s.len() {
                read_more(s, j, ts, t)
            } else {
                None
            },
            None => None,
        }
    }
}

/// The expression at an index without what is called on it: a number, a name, a call, a list, or what
/// stands in parentheses.
pub open spec fn read_first(s: Seq<char>, i: int, ts: bool) -> Option<(Tree, int)>
    decreases s.len() - i, 1int,
{
    if i < 0 || i >= s.len() {
        None
    } else if s[i] == '(' {
        read_inner(s, i, ts)
    } else if ts && s[i] == '[' {
        match read_list(s, i + 1, ts, ']') {
            Some((ts1, j)) => Some((Tree::List(ts1), j)),
            None => None,
        }
    } else if is_wordy(s[i]) {
        let j = word_end(s, i);
        let w = s.subrange(i, j);
        if is_numeral(s[i]) {
            Some((Tree::Num(number_of(w)), j))
        } else if i < j < s.len() && s[j] == '(' {
            match read_list(s, j + 1, ts, ')') {
                Some((args, k)) => Some((Tree::Call(w, args), k)),
                None => None,
            }
        } else if !ts && w == seq!['v', 'e', 'c'] && i < j && j + 1 < s.len() && s[j] == '!' && s[j + 1]
            == '[' {
            match read_list(s, j + 2, ts, ']') {
                Some((items, k)) => Some((Tree::List(items), k)),
                None => None,
            }
        } else {
            Some((Tree::Name(w), j))
        }
    } else {
        None
    }
}

/// The expression in parentheses from an index on: an operator between two, a choice, or another
/// expression. A borrow is what it borrows.
pub open spec fn read_inner(s: Seq<char>, i: int, ts: bool) -> Option<(Tree, int)>
    decreases s.len() - i, 0int,
{
    if i < 0 || i >= s.len() {
        None
    } else if !ts && stands(s, i + 1, seq!['i', 'f', ' ']) {
        match read(s, i + 4, ts) {
            Some((c, j)) => if i < j && stands(s, j, seq![' ', '{', ' ']) {
                match read(s, j + 3, ts) {
                    Some((y, k)) => if i < k && stands(
                        s,
                        k,
                        seq![' ', '}', ' ', 'e', 'l', 's', 'e', ' ', '{', ' '],
                    ) {
                        match read(s, k + 10, ts) {
                            Some((o, m)) => if i < m && stands(s, m, seq![' ', '}', ')']) {
                                Some((Tree::Choice(Box::new(c), Box::new(y), Box::new(o)), m + 3))
                            } else {
                                None
                            },
                            None => None,
                        }
                    } else {
                        None
                    },
                    None => None,
                }
            } else {
                None
            },
            None => None,
        }
    } else {
        match read(s, i + 1, ts) {
            Some((l, j)) => if i < j < s.len() && s[j] == ')' {
                Some((l, j + 1))
            } else if !(i < j && j + 2 < s.len() && s[j] == ' ') {
                None
            } else {
                let k = if s[j + 2] == ' ' {
                    j + 2
                } else {
                    j + 3
                };
                let sym = s.subrange(j + 1, k);
                if !(k < s.len() && s[k] == ' ') {
                    None
                } else {
                    match read(s, k + 1, ts) {
                        Some((r, m)) => if ts && sym == seq!['?'] {
                            if i < m && stands(s, m, seq![' ', ':', ' ']) {
                                match read(s, m + 3, ts) {
                                    Some((o, n)) => if i < n && stands(s, n, seq![')']) {
                                        Some(
                                            (Tree::Choice(Box::new(l), Box::new(r), Box::new(o)), n + 1),
                                        )
                                    } else {
                                        None
                                    },
                                    None => None,
                                }
                            } else {
                                None
                            }
                        } else if i < m && stands(s, m, seq![')']) {
                            Some((Tree::Op(sym, Box::new(l), Box::new(r)), m + 1))
                        } else {
                            None
                        },
                        None => None,
                    }
                }
            },
            None => None,
        }
    }
}

/// The expressions from an index on, with commas between them, up to a closing mark.
pub open spec fn read_list(s: Seq<char>, i: int, ts: bool, close: char) -> Option<(Seq<Tree>, int)>
    decreases s.len() - i, 3int,
{
    if i < 0 || i >= s.len() {
        None
    } else if s[i] == close {
        Some((Seq::empty(), i + 1))
    } else {
        match read(s, i, ts) {
            Some((t, j)) => if i < j < s.len() && s[j] == close {
                Some((seq![t], j + 1))
            } else if i < j && stands(s, j, seq![',', ' ']) {
                match read_list(s, j + 2, ts, close) {
                    Some((rest, k)) => Some((seq![t] + rest, k)),
                    None => None,
                }
            } else {
                None
            },
            None => None,
        }
    }
}

/// What is called on an expression that ends at an index, and what is called on that.
pub open spec fn read_more(s: Seq<char>, i: int, ts: bool, t: Tree) -> Option<(Tree, int)>
    decreases s.len() - i, 0int,
{
    if 0 <= i && i + 1 < s.len() && s[i] == '.' && is_wordy(s[i + 1]) {
        let j = word_end(s, i + 1);
        let w = s.subrange(i + 1, j);
        if i < j < s.len() && s[j] == '(' {
            match read_list(s, j + 1, ts, ')') {
                Some((args, k)) => if i < k <= s.len() {
                    read_more(s, k, ts, Tree::Method(Box::new(t), w, args))
                } else {
                    None
                },
                None => None,
            }
        } else if i < j <= s.len() {
            read_more(s, j, ts, Tree::Member(Box::new(t), w))
        } else {
            None
        }
    } else {
        Some((t, i))
    }
}

/// A statement of either language.
pub enum Code {
    Let(Seq<char>, Tree),
    Put(Seq<char>, Tree),
    Return(Tree),
    Do(Tree),
    If(Tree, Seq<Code>, Seq<Code>),
    While(Tree, Seq<Code>),
    Count(Seq<char>, Tree, Tree, Seq<Code>),
    Each(Seq<char>, Tree, Seq<Code>),
    Break,
    Continue,
}

/// The word at an index.
pub open spec fn word_at(s: Seq<char>, i: int) -> Seq<char> {
    s.subrange(i, word_end(s, i))
}

/// The expression at an index, where a mark stands behind it; and where that mark ends.
pub open spec fn read_until(s: Seq<char>, i: int, ts: bool, mark: Seq<char>) -> Option<(Tree, int)> {
    match read(s, i, ts) {
        Some((t, j)) => if i < j && stands(s, j, mark) {
            Some((t, j + mark.len()))
        } else {
            None
        },
        None => None,
    }
}

/// The condition at an index, in parentheses in TypeScript, and where the block behind it starts.
pub open spec fn read_condition(s: Seq<char>, i: int, ts: bool) -> Option<(Tree, int)> {
    if !ts {
        read_until(s, i, ts, " { "@)
    } else if stands(s, i, "("@) {
        read_until(s, i + 1, ts, ") { "@)
    } else {
        None
    }
}

/// The statement at an index, and where it ends.
pub open spec fn read_stmt(s: Seq<char>, i: int, ts: bool) -> Option<(Code, int)>
    decreases s.len() - i, 1int,
{
    let j = word_end(s, i);
    let w = word_at(s, i);
    if !(0 <= i < j < s.len()) {
        None
    } else if w == "return"@ {
        match read_until(s, j + 1, ts, ";"@) {
            Some((t, k)) => Some((Code::Return(t), k)),
            None => None,
        }
    } else if w == "let"@ {
        let k = if ts {
            j + 1
        } else {
            j + 5
        };
        let n = word_end(s, k);
        if (ts || stands(s, j, " mut "@)) && k < n && stands(s, n, " = "@) {
            match read_until(s, n + 3, ts, ";"@) {
                Some((t, m)) => Some((Code::Let(word_at(s, k), t), m)),
                None => None,
            }
        } else {
            None
        }
    } else if w == "if"@ {
        match read_condition(s, j + 1, ts) {
            Some((c, k)) => if i < k <= s.len() {
                match read_block(s, k, ts) {
                    Some((a, m)) => if i < m && m + 8 <= s.len() && stands(s, m, " else { "@) {
                        match read_block(s, m + 8, ts) {
                            Some((b, n)) => Some((Code::If(c, a, b), n)),
                            None => None,
                        }
                    } else {
                        Some((Code::If(c, a, Seq::empty()), m))
                    },
                    None => None,
                }
            } else {
                None
            },
            None => None,
        }
    } else if w == "while"@ {
        match read_condition(s, j + 1, ts) {
            Some((c, k)) => if i < k <= s.len() {
                match read_block(s, k, ts) {
                    Some((a, m)) => Some((Code::While(c, a), m)),
                    None => None,
                }
            } else {
                None
            },
            None => None,
        }
    } else if w == "for"@ {
        read_for(s, i, ts)
    } else if w == "break"@ && s[j] == ';' {
        Some((Code::Break, j + 1))
    } else if w == "continue"@ && s[j] == ';' {
        Some((Code::Continue, j + 1))
    } else if stands(s, j, " = "@) {
        match read_until(s, j + 3, ts, ";"@) {
            Some((t, k)) => Some((Code::Put(w, t), k)),
            None => None,
        }
    } else {
        match read_until(s, i, ts, ";"@) {
            Some((t, k)) => Some((Code::Do(t), k)),
            None => None,
        }
    }
}

/// The loop at an index: over integers, or over a list.
pub open spec fn read_for(s: Seq<char>, i: int, ts: bool) -> Option<(Code, int)>
    decreases s.len() - i, 0int,
{
    if i < 0 {
        None
    } else if !ts {
        let n = word_end(s, i + 4);
        let v = word_at(s, i + 4);
        if !(i < n && stands(s, n, " in "@)) {
            None
        } else {
            match read(s, n + 4, ts) {
                Some((a, k)) => if i < k && stands(s, k, ".."@) {
                    match read_until(s, k + 2, ts, " { "@) {
                        Some((b, m)) => if i < m <= s.len() {
                            match read_block(s, m, ts) {
                                Some((body, e)) => Some((Code::Count(v, a, b, body), e)),
                                None => None,
                            }
                        } else {
                            None
                        },
                        None => None,
                    }
                } else if i < k && k + 3 <= s.len() && stands(s, k, " { "@) {
                    match read_block(s, k + 3, ts) {
                        Some((body, e)) => Some((Code::Each(v, a, body), e)),
                        None => None,
                    }
                } else {
                    None
                },
                None => None,
            }
        }
    } else if stands(s, i, "for (const "@) {
        let n = word_end(s, i + 11);
        let v = word_at(s, i + 11);
        if !(i < n && stands(s, n, " of "@)) {
            None
        } else {
            match read_until(s, n + 4, ts, ") { "@) {
                Some((a, k)) => if i < k <= s.len() {
                    match read_block(s, k, ts) {
                        Some((body, e)) => Some((Code::Each(v, a, body), e)),
                        None => None,
                    }
                } else {
                    None
                },
                None => None,
            }
        }
    } else if stands(s, i, "for (let "@) {
        let n = word_end(s, i + 9);
        let v = word_at(s, i + 9);
        if !(i < n && stands(s, n, " = "@)) {
            None
        } else {
            match read_until(s, n + 3, ts, "; "@ + v + " < "@) {
                Some((a, k)) => match read_until(s, k, ts, "; "@ + v + "++) { "@) {
                    Some((b, m)) => if i < m <= s.len() {
                        match read_block(s, m, ts) {
                            Some((body, e)) => Some((Code::Count(v, a, b, body), e)),
                            None => None,
                        }
                    } else {
                        None
                    },
                    None => None,
                },
                None => None,
            }
        }
    } else {
        None
    }
}

/// The statements from an index on, with spaces between them, up to the end of their block.
pub open spec fn read_block(s: Seq<char>, i: int, ts: bool) -> Option<(Seq<Code>, int)>
    decreases s.len() - i, 2int,
{
    if i < 0 || i >= s.len() {
        None
    } else if stands(s, i, " }"@) {
        Some((Seq::empty(), i + 2))
    } else {
        match read_stmt(s, i, ts) {
            Some((c, j)) => if i < j && stands(s, j, " }"@) {
                Some((seq![c], j + 2))
            } else if i < j && j + 1 <= s.len() && stands(s, j, " "@) {
                match read_block(s, j + 1, ts) {
                    Some((rest, k)) => Some((seq![c] + rest, k)),
                    None => None,
                }
            } else {
                None
            },
            None => None,
        }
    }
}

/// Whether an integer is one that every tier computes with exactly.
pub open spec fn is_exact(n: int) -> bool {
    -0x20_0000_0000_0000 <= n <= 0x20_0000_0000_0000
}

/// Whether a value is one that every tier holds alike.
pub open spec fn is_common(v: ValueView) -> bool {
    match v {
        ValueView::Int(n) => is_exact(n),
        ValueView::Bool(_) => true,
        _ => false,
    }
}

/// An integer as a result, as long as it is exact.
pub open spec fn exactly(n: int) -> Option<ValueView> {
    if is_exact(n) {
        Some(ValueView::Int(n))
    } else {
        None
    }
}

/// What an operator of either language gives for two integers.
pub open spec fn of_integers(sym: Seq<char>, x: int, y: int) -> Option<ValueView> {
    if sym == seq!['+'] {
        exactly(x + y)
    } else if sym == seq!['-'] {
        exactly(x - y)
    } else if sym == seq!['*'] {
        exactly(x * y)
    } else if sym == seq!['<'] {
        Some(ValueView::Bool(x < y))
    } else if sym == seq!['>'] {
        Some(ValueView::Bool(x > y))
    } else if sym == seq!['<', '='] {
        Some(ValueView::Bool(x <= y))
    } else if sym == seq!['>', '='] {
        Some(ValueView::Bool(x >= y))
    } else if sym == seq!['=', '='] {
        Some(ValueView::Bool(x == y))
    } else if sym == seq!['!', '='] {
        Some(ValueView::Bool(x != y))
    } else {
        None
    }
}

/// What an operator of either language gives for two truths.
pub open spec fn of_truths(sym: Seq<char>, x: bool, y: bool) -> Option<ValueView> {
    if sym == seq!['&', '&'] {
        Some(ValueView::Bool(x && y))
    } else if sym == seq!['|', '|'] {
        Some(ValueView::Bool(x || y))
    } else if sym == seq!['=', '='] {
        Some(ValueView::Bool(x == y))
    } else if sym == seq!['!', '='] {
        Some(ValueView::Bool(x != y))
    } else {
        None
    }
}

/// What an expression of integers and truths comes to with these names, in either language; nothing where
/// the languages differ, or where a number is too large for one of them.
pub open spec fn value_of(t: Tree, env: Env) -> Option<ValueView>
    decreases t,
{
    match t {
        Tree::Num(n) => exactly(n as int),
        Tree::Name(v) => if v == seq!['t', 'r', 'u', 'e'] {
            Some(ValueView::Bool(true))
        } else if v == seq!['f', 'a', 'l', 's', 'e'] {
            Some(ValueView::Bool(false))
        } else if env.dom().contains(v) && is_common(env[v]) {
            Some(env[v])
        } else {
            None
        },
        Tree::Neg(a) => match value_of(*a, env) {
            Some(ValueView::Int(x)) => Some(ValueView::Int(-x)),
            _ => None,
        },
        Tree::Not(a) => match value_of(*a, env) {
            Some(ValueView::Bool(x)) => Some(ValueView::Bool(!x)),
            _ => None,
        },
        Tree::Op(sym, a, b) => match (value_of(*a, env), value_of(*b, env)) {
            (Some(ValueView::Int(x)), Some(ValueView::Int(y))) => of_integers(sym, x, y),
            (Some(ValueView::Bool(x)), Some(ValueView::Bool(y))) => of_truths(sym, x, y),
            _ => None,
        },
        Tree::Choice(c, y, o) => match value_of(*c, env) {
            Some(ValueView::Bool(true)) => value_of(*y, env),
            Some(ValueView::Bool(false)) => value_of(*o, env),
            _ => None,
        },
        _ => None,
    }
}

} // verus!
