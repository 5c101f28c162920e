use xeres::fmt::{closes_match, lex_with_lines, token_src};
use xeres::lexer::Lexer;
use xeres::token::{lookup_keyword, sym_label, Sym, Token};

fn tokens(src: &str) -> Vec<Token> {
    let mut lexer = Lexer::new(src);
    let mut out = vec![];
    loop {
        let t = lexer.next_token();
        if matches!(t, Token::Sym(Sym::EOF)) {
            return out;
        }
        out.push(t);
    }
}

fn spelled(src: &str) -> Vec<String> {
    tokens(src).iter().map(token_src).collect()
}

#[test]
fn words_numbers_and_marks_are_read() {
    assert_eq!(
        spelled("server fn f(a: Int) -> Int { return a >= 10 && a != 2.50 || x..y }"),
        vec![
            "server", "fn", "f", "(", "a", ":", "Int", ")", "->", "Int", "{", "return", "a", ">=",
            "10", "&&", "a", "!=", "2.5", "||", "x", "..", "y", "}"
        ]
    );
    assert!(matches!(lookup_keyword("model"), Some(Sym::Model)));
    assert!(lookup_keyword("models").is_none());
    assert_eq!(sym_label(Sym::Arrow), "->");
}

#[test]
fn comments_are_skipped_unless_kept() {
    assert_eq!(spelled("a // one\nb"), vec!["a", "b"]);
    let mut lexer = Lexer::new("a // one  \nb").keep_comments();
    lexer.next_token();
    assert!(matches!(lexer.next_token(), Token::Comment(c) if c == "// one"));
    assert!(matches!(lexer.next_token(), Token::Identifier(w) if w == "b"));
    assert!(lexer.at_end());
}

#[test]
fn places_are_told() {
    let mut lexer = Lexer::new("a\n  \"two\nlines\" b");
    lexer.next_token();
    assert_eq!((lexer.token_line(), lexer.token_col()), (1, 1));
    assert!(matches!(lexer.next_token(), Token::Str(t) if t == "two\nlines"));
    assert_eq!((lexer.token_line(), lexer.token_col()), (2, 3));
    lexer.next_token();
    assert_eq!(lexer.token_line(), 3);
    let placed = lex_with_lines("x\n\ny");
    assert_eq!(placed.len(), 2);
    assert_eq!((placed[0].line, placed[1].line), (1, 3));
}

#[test]
fn unknown_characters_are_illegal() {
    assert!(matches!(tokens("a @ b")[1], Token::Illegal('@')));
    assert!(matches!(tokens("a & b")[1], Token::Illegal('&')));
    assert!(matches!(tokens("a | b")[1], Token::Illegal('|')));
    assert!(matches!(tokens("99999999999999999999")[0], Token::Int(0)));
}

const SAMPLES: &[&str] = &[
    "",
    "// only a comment",
    "model User{name:String age:Int secret token:String}",
    "enum Color{Red Green Blue}\n\n\n\n\nserver fn f(a:Int,b:Int)->Int{return a+b*-1}",
    "endpoint weather{base:\"https://api\" secret key}",
    "server fn g() -> List<Int> {\n  let x: Float = 0.0   // zero\n\n\n  return [1,2 , 3]\n}",
    "ui screen Home {\n view {\n column style \"a:b\" {\n heading \"hi\"\n }\n }\n}",
    "server fn h(o: Optional<String>) -> Bool { return !done && a<b || c>=d ? true : false }",
    "server fn k() { for i in 0..10 { xs[i].map(x -> x * 2) } }",
    "a ; b",
    "; a@b $ $",
    "! == x",
    "1 . 50 .. 2",
    "x . 5",
    "- > 3 - >= 4 < = 5",
    "List<a b 1 2>",
    "& & && & | | ||",
    ". . .. /",
    "\"open",
    "01.500 2.0",
];

#[test]
fn formatting_is_idempotent() {
    for src in SAMPLES {
        assert!(closes_match(src));
        let once = xeres::fmt::format(src);
        assert_eq!(xeres::fmt::format(&once), once, "source: {}", src);
    }
}

#[test]
fn formatting_keeps_the_tokens() {
    for src in SAMPLES {
        assert_eq!(spelled(&xeres::fmt::format(src)), spelled(src));
    }
}

#[test]
fn formatting_drops_nothing_and_fuses_nothing() {
    assert_eq!(xeres::fmt::format("a ; b"), "a ; b\n");
    assert_eq!(xeres::fmt::format("! == x"), "! == x\n");
    assert_eq!(xeres::fmt::format("1 . 50"), "1. 50\n");
    assert_eq!(xeres::fmt::format("x . 50"), "x.50\n");
    assert_eq!(xeres::fmt::format("& &"), "& &\n");
    assert_eq!(xeres::fmt::format("!a"), "!a\n");
}

fn kept(src: &str) -> Vec<Token> {
    let mut lexer = Lexer::new(src).keep_comments();
    let mut out = vec![];
    loop {
        let t = lexer.next_token();
        if matches!(t, Token::Sym(Sym::EOF)) {
            return out;
        }
        out.push(t);
    }
}

#[test]
fn comments_are_all_that_keeping_them_adds() {
    for src in ["a // one\nb", "// x", "a // b // c\n// d\n\ne \"// f\" / g", "x/"] {
        let rest: Vec<String> = kept(src)
            .iter()
            .filter(|t| !matches!(t, Token::Comment(_)))
            .map(token_src)
            .collect();
        assert_eq!(rest, spelled(src));
        assert!(tokens(src).iter().all(|t| !matches!(t, Token::Comment(_))));
    }
    assert_eq!(kept("a // b // c\n// d\n\ne").len(), 4);
}

#[test]
fn formatting_is_tidy() {
    for src in SAMPLES {
        let out = xeres::fmt::format(src);
        assert!(out.is_empty() || out.ends_with('\n'));
        assert!(!out.contains("\n\n\n") && !out.starts_with('\n') && !out.ends_with("\n\n"));
        assert!(out.lines().all(|l| l == l.trim_end()));
    }
}

#[test]
fn members_stand_on_lines_of_their_own() {
    assert_eq!(
        xeres::fmt::format("model User{name:String age:Int secret token:String}"),
        "model User {\n  name: String\n  age: Int\n  secret token: String\n}\n"
    );
    assert_eq!(xeres::fmt::format("enum Color{Red Green}"), "enum Color {\n  Red\n  Green\n}\n");
}

#[test]
fn operators_are_spaced_and_blank_lines_collapse() {
    assert_eq!(
        xeres::fmt::format("server fn f(a:Int,b:Int)->Int{return a+b*-1}\n\n\n\nserver fn g(){}"),
        "server fn f(a: Int, b: Int) -> Int { return a + b * -1 }\n\nserver fn g() {}\n"
    );
}

#[test]
fn a_float_stays_a_float() {
    assert_eq!(xeres::fmt::format("let x = 0.0"), "let x = 0.0\n");
    assert_eq!(xeres::fmt::format("let x = 1.50"), "let x = 1.5\n");
}

#[test]
fn a_source_with_a_stray_closer_is_told_apart() {
    assert!(!closes_match("} x"));
    assert!(closes_match("}"));
    assert!(closes_match("{ ( [ ] ) } x"));
}

#[test]
fn letters_and_blanks_beyond_ascii_are_told_apart() {
    assert_eq!(spelled("é\u{a0}ü_1\u{2003}漢"), vec!["é", "ü_1", "漢"]);
    assert!(matches!(tokens("×")[0], Token::Illegal('×')));
}
