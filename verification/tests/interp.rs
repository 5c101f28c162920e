use std::cmp::Ordering;
use xeres::analysis::analyze;
use xeres::ast::{
    ApiNode, ApiRoute, BinOp, EndpointNode, EnvModifier, Expr, FunctionNode, MatchArm, MatchPat,
    ModelNode, Param, PropertyNode, Stmt, UnOp, XeresProgram,
};
use xeres::builtin::{Effect, Want};
use xeres::decimal::{dec_add, dec_cmp, dec_mul, dec_sub};
use xeres::interp::{Interp, Reply, Stop};
use xeres::lower::lower;
use xeres::modules::{load_program, Child, Content, Loading, SourceFile};
use xeres::session::{session_secret, session_set_cookie};
use xeres::strmap::StrMap;
use xeres::value::{Number, Value};

fn empty_program() -> XeresProgram {
    XeresProgram {
        models: vec![],
        enums: vec![],
        functions: vec![],
        states: vec![],
        screens: vec![],
        endpoints: vec![],
        apis: vec![],
        imports: vec![],
        requires_caps: vec![],
        themes: vec![],
        styles: vec![],
    }
}

fn s(t: &str) -> String {
    t.to_string()
}

fn ident(n: &str) -> Expr {
    Expr::Ident(s(n))
}

fn text(t: &str) -> Expr {
    Expr::Str(s(t))
}

fn bin(op: BinOp, l: Expr, r: Expr) -> Expr {
    Expr::Binary { op, left: Box::new(l), right: Box::new(r) }
}

fn method(recv: Expr, name: &str, args: Vec<Expr>) -> Expr {
    Expr::MethodCall { receiver: Box::new(recv), method: s(name), args }
}

fn call(name: &str, args: Vec<Expr>) -> Expr {
    Expr::Call { callee: s(name), args }
}

fn field(base: Expr, name: &str) -> Expr {
    Expr::Field { base: Box::new(base), field: s(name) }
}

fn closure(params: &[&str], body: Expr) -> Expr {
    Expr::Closure { params: params.iter().map(|p| s(p)).collect(), body: Box::new(body) }
}

fn func(
    env: EnvModifier,
    is_pub: bool,
    name: &str,
    params: &[(&str, &str)],
    ret: Option<&str>,
    body: Vec<Stmt>,
) -> FunctionNode {
    FunctionNode {
        env,
        is_auth: false,
        is_pub,
        name: s(name),
        params: params.iter().map(|(n, t)| Param { name: s(n), ty: s(t) }).collect(),
        return_type: ret.map(s),
        body,
        line: 1,
        module: String::new(),
    }
}

fn server(name: &str, params: &[(&str, &str)], ret: &str, body: Expr) -> FunctionNode {
    func(EnvModifier::Server, false, name, params, Some(ret), vec![Stmt::Return(body)])
}

fn server_block(name: &str, params: &[(&str, &str)], ret: &str, body: Vec<Stmt>) -> FunctionNode {
    func(EnvModifier::Server, false, name, params, Some(ret), body)
}

fn model(name: &str, props: &[(&str, &str, bool)]) -> ModelNode {
    ModelNode {
        name: s(name),
        properties: props
            .iter()
            .map(|(n, t, secret)| PropertyNode {
                name: s(n),
                data_type: s(t),
                is_secret: *secret,
                line: 1,
            })
            .collect(),
        line: 1,
        module: String::new(),
    }
}

fn number(f: f64) -> Number {
    Number {
        text: f.to_string(),
        debug: format!("{:?}", f),
        whole: f as i64,
        integral: f.fract() == 0.0,
    }
}

fn messages(program: &XeresProgram) -> Vec<String> {
    analyze(program).errors.iter().map(|e| format!("[{}] {}", e.rule, e.message)).collect()
}

fn ints(v: &[i64]) -> Value {
    Value::List(v.iter().map(|n| Value::Int(*n)).collect())
}

fn as_ints(v: Value) -> Vec<i64> {
    match v {
        Value::List(xs) => {
            xs.iter().map(|x| if let Value::Int(n) = x { *n } else { -999 }).collect()
        }
        other => panic!("expected a list, got {:?}", other),
    }
}

fn failure(r: Result<Value, Stop>) -> String {
    match r {
        Err(Stop::Failed(m)) => m,
        other => panic!("expected a failure, got {:?}", other),
    }
}

/// Runs one expression in a program with the given functions.
fn run(functions: Vec<FunctionNode>, e: Expr) -> Result<Value, Stop> {
    let mut program = empty_program();
    program.functions = functions;
    let mut interp = Interp::with_session(&program, None);
    interp.eval(&e, &StrMap::new())
}

#[test]
fn decimal_arithmetic_is_exact() {
    assert_eq!(dec_add("1.50", "2.50").unwrap(), "4.00");
    assert_eq!(dec_add("0.1", "0.2").unwrap(), "0.3");
    assert_eq!(dec_sub("5.00", "1.25").unwrap(), "3.75");
    assert_eq!(dec_mul("19.99", "2").unwrap(), "39.98");
    assert_eq!(dec_mul("1.5", "3").unwrap(), "4.5");
    assert_eq!(dec_add("-1.5", "0.5").unwrap(), "-1.0");
}

#[test]
fn decimal_compare_is_numeric() {
    assert_eq!(dec_cmp("10.00", "9.99").unwrap(), Ordering::Greater);
    assert_eq!(dec_cmp("1.5", "1.50").unwrap(), Ordering::Equal);
    assert_eq!(dec_cmp("0.30", "0.3").unwrap(), Ordering::Equal);
}

#[test]
fn decimal_arithmetic_runs_end_to_end() {
    let mut program = empty_program();
    program.functions = vec![
        server(
            "line_total",
            &[("price", "Decimal"), ("qty", "Int")],
            "Decimal",
            bin(BinOp::Mul, ident("price"), ident("qty")),
        ),
        server(
            "running",
            &[("subtotal", "Decimal"), ("line", "Decimal")],
            "Decimal",
            bin(BinOp::Add, ident("subtotal"), ident("line")),
        ),
        server(
            "change",
            &[("paid", "Decimal"), ("due", "Decimal")],
            "Decimal",
            bin(BinOp::Sub, ident("paid"), ident("due")),
        ),
        server(
            "over",
            &[("total", "Decimal"), ("limit", "Decimal")],
            "Bool",
            bin(BinOp::Gt, ident("total"), ident("limit")),
        ),
    ];
    let errors = messages(&program);
    assert!(errors.is_empty(), "unexpected errors: {:?}", errors);
    lower(&mut program);
    let mut interp = Interp::with_session(&program, None);

    let r = interp.call("line_total", vec![Value::Str(s("19.99")), Value::Int(2)]).unwrap();
    assert!(matches!(&r, Value::Str(t) if t == "39.98"), "line_total => {:?}", r);
    let r = interp.call("running", vec![Value::Str(s("0.1")), Value::Str(s("0.2"))]).unwrap();
    assert!(matches!(&r, Value::Str(t) if t == "0.3"), "running => {:?}", r);
    let r = interp.call("change", vec![Value::Str(s("5.00")), Value::Str(s("1.25"))]).unwrap();
    assert!(matches!(&r, Value::Str(t) if t == "3.75"), "change => {:?}", r);
    let r = interp.call("over", vec![Value::Str(s("10.00")), Value::Str(s("9.99"))]).unwrap();
    assert!(matches!(r, Value::Bool(true)), "over => {:?}", r);
}

#[test]
fn higher_order_list_ops_run_end_to_end() {
    let xs: &[(&str, &str)] = &[("xs", "List<Int>")];
    let index = |i: i64| Expr::Index { base: Box::new(ident("xs")), index: Box::new(Expr::Int(i)) };
    let mut program = empty_program();
    program.functions = vec![
        server(
            "doubled",
            xs,
            "List<Int>",
            method(
                ident("xs"),
                "map",
                vec![closure(&["x"], bin(BinOp::Mul, ident("x"), Expr::Int(2)))],
            ),
        ),
        server(
            "big",
            xs,
            "List<Int>",
            method(
                ident("xs"),
                "filter",
                vec![closure(&["x"], bin(BinOp::GtEq, ident("x"), Expr::Int(2)))],
            ),
        ),
        server(
            "total",
            xs,
            "Int",
            method(
                ident("xs"),
                "reduce",
                vec![
                    Expr::Int(0),
                    closure(&["acc", "x"], bin(BinOp::Add, ident("acc"), ident("x"))),
                ],
            ),
        ),
        server("nth", xs, "Int", method(index(1), "or", vec![Expr::Int(0)])),
        server(
            "oob",
            xs,
            "Int",
            method(
                index(9),
                "or",
                vec![Expr::Unary { op: UnOp::Neg, expr: Box::new(Expr::Int(1)) }],
            ),
        ),
        server(
            "has",
            &[("tags", "List<String>")],
            "Bool",
            method(ident("tags"), "contains", vec![text("b")]),
        ),
    ];
    let errors = messages(&program);
    assert!(errors.is_empty(), "unexpected errors: {:?}", errors);
    lower(&mut program);
    let mut interp = Interp::with_session(&program, None);

    assert_eq!(as_ints(interp.call("doubled", vec![ints(&[1, 2, 3])]).unwrap()), vec![2, 4, 6]);
    assert_eq!(as_ints(interp.call("big", vec![ints(&[1, 2, 3])]).unwrap()), vec![2, 3]);
    assert!(matches!(interp.call("total", vec![ints(&[1, 2, 3])]).unwrap(), Value::Int(6)));
    assert!(matches!(interp.call("nth", vec![ints(&[10, 20, 30])]).unwrap(), Value::Int(20)));
    assert!(matches!(interp.call("oob", vec![ints(&[1])]).unwrap(), Value::Int(-1)));
    let tags = Value::List(vec![Value::Str(s("a")), Value::Str(s("b"))]);
    assert!(matches!(interp.call("has", vec![tags]).unwrap(), Value::Bool(true)));
    let tags2 = Value::List(vec![Value::Str(s("a"))]);
    assert!(matches!(interp.call("has", vec![tags2]).unwrap(), Value::Bool(false)));
}

#[test]
fn modules_run_end_to_end() {
    let mut money = empty_program();
    money.functions = vec![
        func(
            EnvModifier::Shared,
            false,
            "scale",
            &[("n", "Int")],
            Some("Int"),
            vec![Stmt::Return(bin(BinOp::Mul, ident("n"), Expr::Int(100)))],
        ),
        func(
            EnvModifier::Shared,
            true,
            "to_cents",
            &[("dollars", "Int")],
            Some("Int"),
            vec![Stmt::Return(call("scale", vec![ident("dollars")]))],
        ),
        func(
            EnvModifier::Shared,
            true,
            "add",
            &[("a", "Int"), ("b", "Int")],
            Some("Int"),
            vec![Stmt::Return(bin(BinOp::Add, ident("a"), ident("b")))],
        ),
    ];
    let mut app = empty_program();
    app.imports = vec![xeres::ast::ImportNode { path: s("money.xrs"), grants: vec![], line: 1 }];
    app.functions = vec![server(
        "checkout",
        &[("dollars", "Int"), ("tax", "Int")],
        "Int",
        method(
            ident("money"),
            "add",
            vec![method(ident("money"), "to_cents", vec![ident("dollars")]), ident("tax")],
        ),
    )];
    let files = vec![
        SourceFile {
            key: s("/app.xrs"),
            content: Content::Parsed {
                program: app,
                children: vec![Child { key: s("/money.xrs"), display: s("money.xrs") }],
            },
        },
        SourceFile {
            key: s("/money.xrs"),
            content: Content::Parsed { program: money, children: vec![] },
        },
    ];
    let mut program = match load_program("/app.xrs", "app.xrs", files) {
        Loading::Program(p) => p,
        Loading::Failed(es) => {
            panic!("load failed: {:?}", es.iter().map(|e| e.message.clone()).collect::<Vec<_>>())
        }
        Loading::Needs { key, .. } => panic!("a file is missing: {}", key),
    };
    let errors = messages(&program);
    assert!(errors.is_empty(), "unexpected errors: {:?}", errors);
    lower(&mut program);
    let mut interp = Interp::with_session(&program, None);
    let r = interp.call("checkout", vec![Value::Int(2), Value::Int(5)]).unwrap();
    assert!(matches!(r, Value::Int(205)), "checkout => {:?}", r);
    let r = interp.call("add", vec![Value::Int(40), Value::Int(2)]).unwrap();
    assert!(matches!(r, Value::Int(42)), "add => {:?}", r);
}

#[test]
fn api_runs_end_to_end() {
    let mut program = empty_program();
    program.models = vec![
        model("User", &[("id", "String", false), ("name", "String", false), ("token", "String", true)]),
        model("Signup", &[("email", "String", false)]),
        model("Conf", &[("ok", "Bool", false), ("echo", "String", false)]),
    ];
    program.apis = vec![ApiNode {
        base: s("/api"),
        routes: vec![
            ApiRoute {
                method: s("GET"),
                path: s("/me"),
                body: None,
                return_type: Some(s("User")),
                body_stmts: vec![Stmt::Return(Expr::Record {
                    name: s("User"),
                    fields: vec![
                        (s("id"), text("1")),
                        (s("name"), text("Ada")),
                        (s("token"), text("SECRET")),
                    ],
                })],
                line: 6,
            },
            ApiRoute {
                method: s("POST"),
                path: s("/signup"),
                body: Some(Param { name: s("s"), ty: s("Signup") }),
                return_type: Some(s("Conf")),
                body_stmts: vec![Stmt::Return(Expr::Record {
                    name: s("Conf"),
                    fields: vec![
                        (s("ok"), Expr::Bool(true)),
                        (s("echo"), field(ident("s"), "email")),
                    ],
                })],
                line: 7,
            },
        ],
        line: 4,
        module: String::new(),
    }];
    let errors = messages(&program);
    assert!(errors.is_empty(), "api errors: {:?}", errors);
    lower(&mut program);
    let mut interp = Interp::with_session(&program, None);
    let routes = &program.apis[0].routes;

    let me = &routes[0];
    let v = interp.call_api_route(&me.body_stmts, None, &me.return_type).unwrap();
    let json = interp.wire_json(&v);
    assert!(json.contains("Ada"), "me => {}", json);
    assert!(!json.contains("SECRET"), "secret leaked on the public api: {}", json);
    assert_eq!(json, "{\"id\":\"1\",\"name\":\"Ada\"}");

    let signup = &routes[1];
    let body = signup.body.as_ref().map(|b| {
        (
            b.name.clone(),
            Value::Record(s("Signup"), vec![(s("email"), Value::Str(s("a@b.com")))]),
        )
    });
    let v = interp.call_api_route(&signup.body_stmts, body, &signup.return_type).unwrap();
    let json = interp.wire_json(&v);
    assert!(json.contains("a@b.com"), "signup => {}", json);
    assert_eq!(json, "{\"ok\":true,\"echo\":\"a@b.com\"}");
}

// `session.actor.or(default)`.
fn actor_or(default: &str) -> Expr {
    method(field(ident("session"), "actor"), "or", vec![text(default)])
}

#[test]
fn optional_or_on_present_string_returns_the_value() {
    let program = empty_program();
    let mut interp = Interp::with_session(&program, Some("alice".to_string()));
    let got = interp.eval(&actor_or(""), &StrMap::new());
    assert!(matches!(&got, Ok(Value::Str(t)) if t == "alice"), "got {:?}", got);
}

#[test]
fn optional_or_on_none_returns_the_default() {
    let program = empty_program();
    let mut interp = Interp::with_session(&program, None);
    let got = interp.eval(&actor_or("anon"), &StrMap::new());
    assert!(matches!(&got, Ok(Value::Str(t)) if t == "anon"), "got {:?}", got);
}

#[test]
fn loops_and_branches_run() {
    // total of the odd numbers below ten, leaving out seven and stopping at nine
    let body = vec![
        Stmt::Let { name: s("t"), type_ann: None, value: Expr::Int(0) },
        Stmt::For {
            var: s("i"),
            iter: Expr::Range { start: Box::new(Expr::Int(0)), end: Box::new(Expr::Int(10)) },
            body: vec![
                Stmt::If {
                    cond: bin(BinOp::Eq, ident("i"), Expr::Int(9)),
                    then_body: vec![Stmt::Break],
                    else_body: vec![],
                },
                Stmt::If {
                    cond: bin(BinOp::Eq, ident("i"), Expr::Int(7)),
                    then_body: vec![Stmt::Continue],
                    else_body: vec![],
                },
                Stmt::Let { name: s("h"), type_ann: None, value: bin(BinOp::Div, ident("i"), Expr::Int(2)) },
                Stmt::If {
                    cond: bin(
                        BinOp::NotEq,
                        bin(BinOp::Mul, ident("h"), Expr::Int(2)),
                        ident("i"),
                    ),
                    then_body: vec![Stmt::Assign {
                        name: s("t"),
                        value: bin(BinOp::Add, ident("t"), ident("i")),
                    }],
                    else_body: vec![],
                },
            ],
        },
        Stmt::While {
            cond: bin(BinOp::Lt, ident("t"), Expr::Int(20)),
            body: vec![Stmt::Assign { name: s("t"), value: bin(BinOp::Add, ident("t"), Expr::Int(3)) }],
        },
        Stmt::Return(ident("t")),
    ];
    let r = run(vec![server_block("f", &[], "Int", body)], call("f", vec![]));
    // 1 + 3 + 5 = 9, then by threes to the first that is not below twenty
    assert!(matches!(r, Ok(Value::Int(21))), "got {:?}", r);
}

#[test]
fn match_takes_the_variant_and_else_the_wildcard() {
    let f = || {
        server_block(
            "f",
            &[("c", "Color")],
            "Int",
            vec![
                Stmt::Match {
                    scrutinee: ident("c"),
                    arms: vec![
                        MatchArm { pattern: MatchPat::Wildcard, body: vec![Stmt::Return(Expr::Int(0))] },
                        MatchArm {
                            pattern: MatchPat::Variant(s("Red")),
                            body: vec![Stmt::Return(Expr::Int(1))],
                        },
                    ],
                },
            ],
        )
    };
    let red = run(vec![f()], call("f", vec![field(ident("Color"), "Red")]));
    assert!(matches!(red, Ok(Value::Int(1))));
    let blue = run(vec![f()], call("f", vec![field(ident("Color"), "Blue")]));
    assert!(matches!(blue, Ok(Value::Int(0))));
    assert_eq!(
        failure(run(vec![f()], call("f", vec![Expr::Int(3)]))),
        "`match` scrutinee must be an enum"
    );
}

#[test]
fn integers_compute_as_fractions_do() {
    let op = |o, a, b| run(vec![], bin(o, Expr::Int(a), Expr::Int(b)));
    assert!(matches!(op(BinOp::Div, 7, 2), Ok(Value::Int(3))));
    assert!(matches!(op(BinOp::Div, -7, 2), Ok(Value::Int(-3))));
    assert!(matches!(op(BinOp::Div, 1, 0), Ok(Value::Int(i64::MAX))));
    assert!(matches!(op(BinOp::Div, -1, 0), Ok(Value::Int(i64::MIN))));
    assert!(matches!(op(BinOp::Div, 0, 0), Ok(Value::Int(0))));
    for (a, b) in [
        (i64::MAX, 1),
        (i64::MAX, -1),
        (i64::MIN, 1),
        (9007199254740993, 1),
        (9007199254740995, 2),
        (3037000500, 3037000500),
        (-3037000500, 3037000501),
        (123456789012345678, 9),
    ] {
        let minus = ((a as f64) - (b as f64)) as i64;
        let times = ((a as f64) * (b as f64)) as i64;
        assert!(matches!(op(BinOp::Sub, a, b), Ok(Value::Int(n)) if n == minus), "{} - {}", a, b);
        assert!(matches!(op(BinOp::Mul, a, b), Ok(Value::Int(n)) if n == times), "{} * {}", a, b);
        let less = (a as f64) < (b as f64);
        assert!(matches!(op(BinOp::Lt, a, b), Ok(Value::Bool(x)) if x == less));
    }
    // two integers that are the same fraction
    assert!(matches!(op(BinOp::GtEq, 9007199254740992, 9007199254740993), Ok(Value::Bool(true))));
    assert!(matches!(op(BinOp::Add, i64::MAX, 1), Err(Stop::Overflow)));
}

#[test]
fn math_builtins_stay_integer() {
    assert!(matches!(run(vec![], call("abs", vec![Expr::Int(-4)])), Ok(Value::Int(4))));
    assert!(matches!(
        run(vec![], call("min", vec![Expr::Int(3), Expr::Int(2)])),
        Ok(Value::Int(2))
    ));
    assert!(matches!(
        run(vec![], call("max", vec![Expr::Int(3), Expr::Int(2)])),
        Ok(Value::Int(3))
    ));
    assert_eq!(failure(run(vec![], call("abs", vec![]))), "math fn needs an argument");
    assert_eq!(failure(run(vec![], call("abs", vec![text("x")]))), "math fn needs a number");
    assert_eq!(
        failure(run(vec![], call("min", vec![Expr::Int(1)]))),
        "min/max need two arguments"
    );
    assert_eq!(
        failure(run(vec![], call("max", vec![Expr::Int(1), text("x")]))),
        "min/max need numbers"
    );
}

#[test]
fn text_methods_run() {
    let m = |t: &str, name: &str, args: Vec<Expr>| run(vec![], method(text(t), name, args));
    assert!(matches!(m("  a b ", "trim", vec![]), Ok(Value::Str(t)) if t == "a b"));
    assert!(matches!(m("Straße", "upper", vec![]), Ok(Value::Str(t)) if t == "STRASSE"));
    assert!(matches!(m("ÄB", "lower", vec![]), Ok(Value::Str(t)) if t == "äb"));
    assert!(matches!(m("Straße", "length", vec![]), Ok(Value::Int(6))));
    assert!(matches!(m("abc", "contains", vec![text("bc")]), Ok(Value::Bool(true))));
    assert!(matches!(m("abc", "contains", vec![text("cb")]), Ok(Value::Bool(false))));
    assert!(matches!(
        m("aXbXc", "replace", vec![text("X"), text("--")]),
        Ok(Value::Str(t)) if t == "a--b--c"
    ));
    for (t, p) in [("a,b,,c", ","), ("abc", ""), ("", ""), ("", ","), ("aaa", "aa"), ("xyz", "q")] {
        let expected: Vec<String> = t.split(p).map(|x| x.to_string()).collect();
        match m(t, "split", vec![text(p)]) {
            Ok(Value::List(vs)) => {
                let got: Vec<String> = vs
                    .iter()
                    .map(|v| if let Value::Str(x) = v { x.clone() } else { panic!("{:?}", v) })
                    .collect();
                assert_eq!(got, expected, "{:?} split at {:?}", t, p);
            }
            other => panic!("{:?}", other),
        }
        let replaced = t.replace(p, "-");
        assert!(
            matches!(m(t, "replace", vec![text(p), text("-")]), Ok(Value::Str(x)) if x == replaced),
            "{:?} replace {:?}",
            t,
            p
        );
    }
    assert_eq!(failure(m("a", "split", vec![])), "`.split()` argument must be a String");
    assert_eq!(failure(m("a", "shout", vec![])), "unknown String method `shout`");
}

#[test]
fn list_methods_run() {
    let xs = || Expr::ListLit(vec![Expr::Int(1), Expr::Int(2), Expr::Int(3)]);
    let m = |name: &str, args: Vec<Expr>| run(vec![], method(xs(), name, args));
    assert!(matches!(m("length", vec![]), Ok(Value::Int(3))));
    assert!(matches!(m("first", vec![]), Ok(Value::Int(1))));
    assert!(matches!(m("last", vec![]), Ok(Value::Int(3))));
    assert!(matches!(m("at", vec![Expr::Int(1)]), Ok(Value::Int(2))));
    assert!(matches!(m("at", vec![Expr::Int(3)]), Ok(Value::Null)));
    assert!(matches!(m("at", vec![Expr::Int(-1)]), Ok(Value::Null)));
    assert_eq!(as_ints(m("reverse", vec![]).unwrap()), vec![3, 2, 1]);
    assert!(matches!(
        run(vec![], method(Expr::ListLit(vec![]), "first", vec![])),
        Ok(Value::Null)
    ));
    assert!(matches!(
        run(vec![], method(Expr::ListLit(vec![]), "last", vec![])),
        Ok(Value::Null)
    ));
    assert_eq!(failure(m("at", vec![text("x")])), "`.at()` argument must be an Int");
    assert_eq!(failure(m("sum", vec![])), "unknown List method `sum`");
    assert_eq!(
        failure(m("filter", vec![closure(&["x"], ident("x"))])),
        "`filter` predicate must return a Bool"
    );
    assert_eq!(failure(m("map", vec![])), "expected a closure argument (`x -> …`)");
    assert_eq!(failure(m("reduce", vec![])), "`reduce` needs an init value");
}

#[test]
fn errors_name_their_cause() {
    assert_eq!(failure(run(vec![], ident("x"))), "unknown variable `x`");
    assert_eq!(failure(run(vec![], call("f", vec![]))), "no such function `f`");
    assert_eq!(
        failure(run(vec![], bin(BinOp::Sub, text("a"), Expr::Int(1)))),
        "arithmetic needs numbers"
    );
    assert_eq!(
        failure(run(vec![], bin(BinOp::Lt, text("a"), Expr::Int(1)))),
        "comparison needs numbers"
    );
    assert_eq!(
        failure(run(vec![], bin(BinOp::And, Expr::Int(1), Expr::Bool(true)))),
        "&& needs booleans"
    );
    assert_eq!(
        failure(run(vec![], bin(BinOp::Or, Expr::Int(1), Expr::Bool(true)))),
        "|| needs booleans"
    );
    assert_eq!(
        failure(run(vec![], call("__dec_add", vec![Expr::Bool(true), text("1")]))),
        "decimal op needs a Decimal/Int, got Some(Bool(true))"
    );
    assert_eq!(
        failure(run(vec![], call("__dec_add", vec![text("1")]))),
        "decimal op needs a Decimal/Int, got None"
    );
    assert_eq!(
        failure(run(vec![], call("__dec_add", vec![text("x"), text("1")]))),
        "invalid Decimal"
    );
    assert_eq!(
        failure(run(vec![], call("__dec_pow", vec![text("1"), text("1")]))),
        "unknown decimal op `pow`"
    );
    assert_eq!(
        failure(run(vec![], call("__list_contains", vec![text("x")]))),
        "`contains` needs a list"
    );
    assert_eq!(failure(run(vec![], call("hash", vec![]))), "hash() expects a string");
    assert_eq!(
        failure(run(vec![], call("verify", vec![text("x")]))),
        "verify() expects (password, hash)"
    );
    assert_eq!(
        failure(run(vec![], field(Expr::Int(1), "a"))),
        "`.a` on a non-record value"
    );
    assert_eq!(
        failure(run(
            vec![],
            field(Expr::Record { name: s("R"), fields: vec![(s("b"), Expr::Int(1))] }, "a")
        )),
        "no field `a`"
    );
    assert_eq!(
        failure(run(vec![], method(Expr::Int(1), "x", vec![]))),
        "unsupported method call in server runtime"
    );
    assert_eq!(
        failure(run(vec![], Expr::Unary { op: UnOp::Not, expr: Box::new(Expr::Int(1)) })),
        "invalid unary operand"
    );
    assert_eq!(
        failure(run(vec![], method(Expr::NoneLit, "or", vec![]))),
        "`or` needs a default"
    );
}

#[test]
fn values_join_to_texts_as_they_show() {
    let cat = |e: Expr| match run(vec![], bin(BinOp::Add, text(">"), e)) {
        Ok(Value::Str(t)) => t,
        other => panic!("{:?}", other),
    };
    assert_eq!(cat(Expr::Int(-5)), ">-5");
    assert_eq!(cat(Expr::Bool(true)), ">true");
    assert_eq!(cat(Expr::NoneLit), ">");
    assert_eq!(cat(Expr::ListLit(vec![Expr::Int(1)])), ">");
    let r = run(vec![], bin(BinOp::Add, Expr::Int(1), text("<")));
    assert!(matches!(r, Ok(Value::Str(t)) if t == "1<"));
}

#[test]
fn equality_is_deep() {
    let rec = |n: i64| Expr::Record {
        name: s("P"),
        fields: vec![(s("xs"), Expr::ListLit(vec![Expr::Int(n), text("a")]))],
    };
    let eq = |a, b| matches!(run(vec![], bin(BinOp::Eq, a, b)), Ok(Value::Bool(true)));
    assert!(eq(rec(1), rec(1)));
    assert!(!eq(rec(1), rec(2)));
    assert!(!eq(Expr::Int(1), text("1")));
    assert!(eq(Expr::NoneLit, Expr::NoneLit));
    let found = run(
        vec![],
        call("__list_contains", vec![Expr::ListLit(vec![rec(1), rec(2)]), rec(2)]),
    );
    assert!(matches!(found, Ok(Value::Bool(true))));
}

/// Answers the questions of a call until it is done, with the numbers of the machine.
fn drive(interp: &mut Interp, name: &str, args: &dyn Fn() -> Vec<Value>) -> Result<Value, Stop> {
    loop {
        let r = interp.call(name, args());
        let reply = match &r {
            Err(Stop::Need(Effect::Numbers(ts))) => Reply::Numbers(
                ts.items.iter().map(|t| number(t.parse().unwrap_or(0.0))).collect(),
            ),
            Err(Stop::Need(Effect::Arith(op, a, b))) => {
                let f = |v: &Value| match v {
                    Value::Int(n) => *n as f64,
                    Value::Float(n) => n.text.parse().unwrap(),
                    other => panic!("{:?}", other),
                };
                match op {
                    BinOp::Add => Reply::Number(number(f(a) + f(b))),
                    BinOp::Sub => Reply::Number(number(f(a) - f(b))),
                    BinOp::Mul => Reply::Number(number(f(a) * f(b))),
                    BinOp::Div => Reply::Number(number(f(a) / f(b))),
                    BinOp::Lt => Reply::Truth(f(a) < f(b)),
                    BinOp::Gt => Reply::Truth(f(a) > f(b)),
                    BinOp::LtEq => Reply::Truth(f(a) <= f(b)),
                    BinOp::GtEq => Reply::Truth(f(a) >= f(b)),
                    other => panic!("{:?}", other),
                }
            }
            Err(Stop::Need(Effect::Now)) => Reply::Int(1234),
            Err(Stop::Need(Effect::Nanos)) => Reply::Nanos(0xabcdef),
            _ => return r,
        };
        interp.answer(reply);
    }
}

#[test]
fn fractions_are_the_hosts_and_come_back() {
    let mut program = empty_program();
    program.functions = vec![
        server_block(
            "mean",
            &[],
            "Float",
            vec![
                Stmt::Let {
                    name: s("t"),
                    type_ann: None,
                    value: bin(BinOp::Add, Expr::Float(s("1.5")), Expr::Float(s("2.25"))),
                },
                Stmt::If {
                    cond: bin(BinOp::Gt, ident("t"), Expr::Int(3)),
                    then_body: vec![Stmt::Return(bin(BinOp::Div, ident("t"), Expr::Int(2)))],
                    else_body: vec![],
                },
                Stmt::Return(ident("t")),
            ],
        ),
        server(
            "neg",
            &[],
            "Float",
            Expr::Unary { op: UnOp::Neg, expr: Box::new(Expr::Float(s("1.5"))) },
        ),
        server("stamp", &[], "Int", call("now", vec![])),
        server("fresh", &[], "String", call("uid", vec![])),
    ];
    let mut interp = Interp::with_session(&program, None);
    let r = drive(&mut interp, "mean", &Vec::new);
    assert!(matches!(&r, Ok(Value::Float(n)) if n.text == "1.875"), "{:?}", r);
    let r = drive(&mut interp, "neg", &Vec::new);
    assert!(
        matches!(&r, Ok(Value::Float(n)) if n.text == "-1.5" && n.debug == "-1.5" && n.whole == -1),
        "{:?}",
        r
    );
    assert!(matches!(drive(&mut interp, "stamp", &Vec::new), Ok(Value::Int(1234))));
    let r = drive(&mut interp, "fresh", &Vec::new);
    assert!(matches!(&r, Ok(Value::Str(t)) if t == "abcdef"), "{:?}", r);
}

#[test]
fn a_session_is_signed_in_and_out() {
    let mut program = empty_program();
    program.functions = vec![
        server_block(
            "enter",
            &[("id", "String")],
            "Int",
            vec![
                Stmt::Expr(method(ident("session"), "login", vec![ident("id")])),
                Stmt::Return(Expr::Int(1)),
            ],
        ),
        server_block(
            "leave",
            &[],
            "Int",
            vec![
                Stmt::Expr(method(ident("session"), "logout", vec![])),
                Stmt::Return(Expr::Int(1)),
            ],
        ),
        server("odd", &[], "Int", method(ident("session"), "renew", vec![])),
        server("num", &[], "Int", method(ident("session"), "login", vec![Expr::Int(1)])),
        server("none", &[], "Int", method(ident("session"), "login", vec![])),
    ];
    let mut interp = Interp::with_session(&program, None);
    let key = session_secret(&Some(s("k")));
    interp.set_secret(session_secret(&Some(s("k"))));
    assert!(interp.take_set_cookie().is_none());
    interp.call("enter", vec![Value::Str(s("alice"))]).unwrap();
    assert_eq!(interp.take_set_cookie(), Some(session_set_cookie("alice", &key)));
    assert!(interp.take_set_cookie().is_none());
    interp.call("leave", vec![]).unwrap();
    let out = interp.take_set_cookie().unwrap();
    assert!(out.starts_with("xeres_session=; HttpOnly"), "{}", out);
    assert_eq!(failure(interp.call("odd", vec![])), "session has no method `renew`");
    assert_eq!(failure(interp.call("num", vec![])), "session.login expects a String id");
    assert_eq!(failure(interp.call("none", vec![])), "session.login(id) needs an id");
}

#[test]
fn the_last_cookie_since_the_last_take_is_taken() {
    let mut program = empty_program();
    program.functions = vec![
        server_block(
            "enter",
            &[("id", "String")],
            "Int",
            vec![
                Stmt::Expr(method(ident("session"), "login", vec![ident("id")])),
                Stmt::Return(Expr::Int(1)),
            ],
        ),
        server_block(
            "leave",
            &[],
            "Int",
            vec![
                Stmt::Expr(method(ident("session"), "logout", vec![])),
                Stmt::Return(Expr::Int(1)),
            ],
        ),
        server_block(
            "swap",
            &[],
            "Int",
            vec![
                Stmt::Expr(method(ident("session"), "logout", vec![])),
                Stmt::Expr(method(ident("session"), "login", vec![Expr::Str(s("carol"))])),
                Stmt::Return(Expr::Int(1)),
            ],
        ),
        server("quiet", &[], "Int", Expr::Int(7)),
        server("odd", &[], "Int", method(ident("session"), "renew", vec![])),
    ];
    let mut interp = Interp::with_session(&program, None);
    let key = session_secret(&Some(s("k")));
    interp.set_secret(session_secret(&Some(s("k"))));
    interp.call("enter", vec![Value::Str(s("alice"))]).unwrap();
    interp.call("leave", vec![]).unwrap();
    interp.call("enter", vec![Value::Str(s("bob"))]).unwrap();
    interp.call("quiet", vec![]).unwrap();
    assert_eq!(failure(interp.call("odd", vec![])), "session has no method `renew`");
    interp.eval(&Expr::Int(1), &StrMap::new()).unwrap();
    assert_eq!(interp.take_set_cookie(), Some(session_set_cookie("bob", &key)));
    interp.call("quiet", vec![]).unwrap();
    assert!(interp.take_set_cookie().is_none());
    interp.call("leave", vec![]).unwrap();
    interp.call("swap", vec![]).unwrap();
    assert_eq!(interp.take_set_cookie(), Some(session_set_cookie("carol", &key)));
    assert!(interp.take_set_cookie().is_none());
}

#[test]
fn an_evaluated_logout_leaves_its_cookie() {
    let program = empty_program();
    let mut interp = Interp::with_session(&program, Some(s("alice")));
    interp.eval(&method(ident("session"), "logout", vec![]), &StrMap::new()).unwrap();
    let out = interp.take_set_cookie().unwrap();
    assert!(out.starts_with("xeres_session=; HttpOnly"), "{}", out);
    assert!(interp.take_set_cookie().is_none());
    let actor = interp.eval(&field(ident("session"), "actor"), &StrMap::new());
    assert!(matches!(actor, Ok(Value::Str(t)) if t == "alice"));
}

#[test]
fn an_evaluation_uses_its_answers_up() {
    let program = empty_program();
    let mut interp = Interp::with_session(&program, None);
    assert!(matches!(
        interp.eval(&call("now", vec![]), &StrMap::new()),
        Err(Stop::Need(Effect::Now))
    ));
    interp.answer(Reply::Int(7));
    assert!(matches!(interp.eval(&call("now", vec![]), &StrMap::new()), Ok(Value::Int(7))));
    assert!(matches!(
        interp.eval(&call("now", vec![]), &StrMap::new()),
        Err(Stop::Need(Effect::Now))
    ));
}

#[test]
fn lowered_concatenation_joins_what_is_shown() {
    let program = empty_program();
    let mut interp = Interp::with_session(&program, None);
    let got = interp.call("__str_concat", vec![Value::Str(s("lat=")), Value::Int(5)]);
    assert!(matches!(&got, Ok(Value::Str(t)) if t == "lat=5"), "got {:?}", got);

    let mut program = empty_program();
    program.functions = vec![server(
        "where_is",
        &[("n", "Int"), ("ok", "Bool")],
        "String",
        bin(
            BinOp::Add,
            bin(BinOp::Add, text("lat="), ident("n")),
            ident("ok"),
        ),
    )];
    lower(&mut program);
    assert!(matches!(
        &program.functions[0].body[0],
        Stmt::Return(Expr::Call { callee, .. }) if callee == "__str_concat"
    ));
    let mut interp = Interp::with_session(&program, None);
    let got = interp.call("where_is", vec![Value::Int(5), Value::Bool(true)]);
    assert!(matches!(&got, Ok(Value::Str(t)) if t == "lat=5true"), "got {:?}", got);
}

#[test]
fn a_log_line_is_json() {
    let mut program = empty_program();
    program.functions = vec![
        server("say", &[("m", "String")], "Int", method(ident("log"), "warn", vec![ident("m")])),
        server("none", &[], "Int", method(ident("log"), "warn", vec![])),
    ];
    let mut interp = Interp::with_session(&program, None);
    let r = interp.call("say", vec![Value::Str(s("a \"b\""))]);
    assert!(
        matches!(&r, Err(Stop::Need(Effect::Log(l))) if l == "{\"level\":\"warn\",\"msg\":\"a \\\"b\\\"\"}"),
        "{:?}",
        r
    );
    interp.answer(Reply::Done);
    assert!(matches!(interp.call("say", vec![Value::Str(s("a \"b\""))]), Ok(Value::Null)));
    let r = interp.call("say", vec![ints(&[1, 2])]);
    assert!(
        matches!(&r, Err(Stop::Need(Effect::Log(l))) if l == "{\"level\":\"warn\",\"msg\":\"List([Int(1), Int(2)])\"}"),
        "{:?}",
        r
    );
    assert_eq!(failure(interp.call("none", vec![])), "log needs a message");
}

fn shop() -> XeresProgram {
    let mut program = empty_program();
    program.models = vec![model(
        "User",
        &[
            ("id", "Int", false),
            ("name", "String", false),
            ("score", "Float", false),
            ("on", "Bool", false),
            ("hash", "String", true),
        ],
    )];
    let db = |m: &str, args: Vec<Expr>| method(ident("db"), m, args);
    program.functions = vec![
        server(
            "one",
            &[("id", "Int")],
            "User",
            db("query_one", vec![text("select * from u where id = $1"), ident("id")]),
        ),
        server("maybe", &[], "Optional<User>", db("query_one", vec![text("q")])),
        server("all", &[], "List<User>", db("query", vec![text("q")])),
        server("odd", &[], "Int", db("query_one", vec![text("q")])),
        server("touch", &[("n", "String")], "Int", db("exec", vec![text("update"), ident("n")])),
        server("bad", &[], "Int", db("exec", vec![text("update"), Expr::NoneLit])),
        server("none", &[], "Int", db("exec", vec![])),
        server("num", &[], "Int", db("exec", vec![Expr::Int(1)])),
        server_block(
            "both",
            &[],
            "Int",
            vec![
                Stmt::Transaction(vec![
                    Stmt::Expr(db("exec", vec![text("a")])),
                    Stmt::Expr(db("exec", vec![text("b")])),
                ]),
                Stmt::Return(Expr::Int(7)),
            ],
        ),
    ];
    program
}

#[test]
fn a_query_reads_rows_into_its_model() {
    let program = shop();
    let mut interp = Interp::with_session(&program, None);
    let row = || {
        vec![
            Value::Int(4),
            Value::Str(s("Ada")),
            Value::Float(number(1.5)),
            Value::Bool(true),
            Value::Str(s("h")),
        ]
    };
    let r = interp.call("one", vec![Value::Int(4)]);
    match r {
        Err(Stop::Need(Effect::Query(sql, params, cols))) => {
            assert_eq!(sql, "select * from u where id = $1");
            assert!(matches!(params.as_slice(), [Value::Int(4)]));
            assert_eq!(
                cols,
                vec![
                    (s("id"), Want::Int),
                    (s("name"), Want::Text),
                    (s("score"), Want::Float),
                    (s("on"), Want::Bool),
                    (s("hash"), Want::Text),
                ]
            );
        }
        other => panic!("{:?}", other),
    }
    interp.answer(Reply::Rows(vec![row(), row()]));
    let v = interp.call("one", vec![Value::Int(4)]).unwrap();
    assert_eq!(interp.wire_json(&v), "{\"id\":4,\"name\":\"Ada\",\"score\":1.5,\"on\":true}");

    interp.answer(Reply::Rows(vec![]));
    assert_eq!(failure(interp.call("one", vec![Value::Int(4)])), "query_one: no rows");
    interp.answer(Reply::Rows(vec![]));
    assert!(matches!(interp.call("maybe", vec![]), Ok(Value::Null)));
    interp.answer(Reply::Rows(vec![row(), vec![]]));
    let v = interp.call("all", vec![]).unwrap();
    assert_eq!(
        interp.wire_json(&v),
        "[{\"id\":4,\"name\":\"Ada\",\"score\":1.5,\"on\":true},{\"id\":null,\"name\":null,\"score\":null,\"on\":null}]"
    );
    interp.answer(Reply::Rows(vec![row()]));
    assert_eq!(failure(interp.call("odd", vec![])), "db query: unknown return model");
    interp.answer(Reply::Failed(s("db query failed: x")));
    assert_eq!(failure(interp.call("all", vec![])), "db query failed: x");
    interp.answer(Reply::Done);
    assert!(matches!(interp.call("all", vec![]), Err(Stop::Mismatch)));
}

#[test]
fn a_statement_takes_scalars() {
    let program = shop();
    let mut interp = Interp::with_session(&program, None);
    let r = interp.call("touch", vec![Value::Str(s("n"))]);
    assert!(
        matches!(&r, Err(Stop::Need(Effect::Exec(sql, ps))) if sql == "update" && matches!(ps.as_slice(), [Value::Str(x)] if x == "n")),
        "{:?}",
        r
    );
    interp.answer(Reply::Int(3));
    assert!(matches!(interp.call("touch", vec![Value::Str(s("n"))]), Ok(Value::Int(3))));
    assert_eq!(failure(interp.call("bad", vec![])), "db param must be a scalar");
    assert_eq!(failure(interp.call("none", vec![])), "db call needs SQL");
    assert_eq!(failure(interp.call("num", vec![])), "db call: SQL must be a string");
}

#[test]
fn a_transaction_is_kept_or_undone() {
    let program = shop();
    let mut interp = Interp::with_session(&program, None);
    let mut said: Vec<String> = vec![];
    let mut go = |replies: Vec<Reply>| {
        let mut left = replies;
        left.reverse();
        loop {
            let r = interp.call("both", vec![]);
            match &r {
                Err(Stop::Need(e)) => {
                    said.push(format!("{:?}", e));
                    interp.answer(left.pop().unwrap());
                }
                _ => return (r, std::mem::take(&mut said)),
            }
        }
    };
    let (r, asked) = go(vec![Reply::Done, Reply::Int(1), Reply::Int(1), Reply::Done]);
    assert!(matches!(r, Ok(Value::Int(7))), "{:?}", r);
    assert_eq!(asked.last().unwrap(), "End(true)");
    assert_eq!(asked.len(), 4);
    let (r, asked) = go(vec![Reply::Done, Reply::Int(1), Reply::Failed(s("boom")), Reply::Done]);
    assert_eq!(failure(r), "boom");
    assert_eq!(asked.last().unwrap(), "End(false)");
    let (r, asked) = go(vec![Reply::Failed(s("no connection"))]);
    assert_eq!(failure(r), "no connection");
    assert_eq!(asked, vec!["Begin"]);
}

fn weather() -> XeresProgram {
    let mut program = empty_program();
    program.models = vec![
        model(
            "Current",
            &[
                ("temperature_2m", "Float", false),
                ("relative_humidity_2m", "Int", false),
                ("wind_speed_10m", "Float", false),
            ],
        ),
        model("Forecast", &[("current", "Current", false)]),
    ];
    program.endpoints = vec![
        EndpointNode {
            name: s("weather"),
            base: s("https://api.example"),
            secrets: vec![(s("key"), s("String"))],
            line: 1,
            module: String::new(),
        },
        EndpointNode {
            name: s("open"),
            base: s("https://open.example"),
            secrets: vec![],
            line: 1,
            module: String::new(),
        },
    ];
    program.functions = vec![
        server("typed", &[], "Forecast", method(ident("weather"), "get", vec![text("/now")])),
        server("raw", &[], "String", method(ident("open"), "get", vec![text("/now")])),
        server(
            "send",
            &[],
            "Int",
            method(ident("weather"), "post", vec![text("/x"), Expr::ListLit(vec![Expr::Int(1)])]),
        ),
        server("bare", &[], "Int", method(ident("open"), "post", vec![text("/x")])),
        server("odd", &[], "Int", method(ident("open"), "put", vec![text("/x")])),
        server("none", &[], "Int", method(ident("open"), "get", vec![])),
        server("num", &[], "Int", method(ident("open"), "get", vec![Expr::Int(1)])),
    ];
    program
}

#[test]
fn an_endpoint_keeps_its_host() {
    let program = weather();
    let mut interp = Interp::with_session(&program, None);
    let r = interp.call("raw", vec![]);
    assert!(
        matches!(&r, Err(Stop::Need(Effect::Get(u, None))) if u == "https://open.example/now"),
        "{:?}",
        r
    );
    interp.answer(Reply::Text(s("sunny")));
    assert!(matches!(interp.call("raw", vec![]), Ok(Value::Str(t)) if t == "sunny"));
    let r = interp.call("send", vec![]);
    assert!(
        matches!(&r, Err(Stop::Need(Effect::Post(u, b, Some(v)))) if u == "https://api.example/x" && b == "[1]" && v == "WEATHER_KEY"),
        "{:?}",
        r
    );
    interp.answer(Reply::Int(404));
    assert!(matches!(interp.call("send", vec![]), Ok(Value::Int(404))));
    let r = interp.call("bare", vec![]);
    assert!(
        matches!(&r, Err(Stop::Need(Effect::Post(_, b, None))) if b.is_empty()),
        "{:?}",
        r
    );
    assert_eq!(failure(interp.call("odd", vec![])), "endpoint has no verb `put`");
    assert_eq!(failure(interp.call("none", vec![])), "endpoint needs a path");
    assert_eq!(failure(interp.call("num", vec![])), "endpoint path must be a string");
}

#[test]
fn a_typed_response_is_decoded() {
    let program = weather();
    let mut interp = Interp::with_session(&program, None);
    let r = interp.call("typed", vec![]);
    assert!(matches!(&r, Err(Stop::Need(Effect::Get(_, Some(v)))) if v == "WEATHER_KEY"), "{:?}", r);
    interp.answer(Reply::Text(s(
        "{\"current\":{\"temperature_2m\":12.3,\"relative_humidity_2m\":80,\"wind_speed_10m\":5.2},\"x\":1}",
    )));
    let r = interp.call("typed", vec![]);
    match r {
        Err(Stop::Need(Effect::Numbers(ts))) => {
            assert_eq!(ts.items, vec!["12.3", "80", "5.2", "1"]);
        }
        other => panic!("{:?}", other),
    }
    interp.answer(Reply::Numbers(vec![number(12.3), number(80.0), number(5.2), number(1.0)]));
    let v = interp.call("typed", vec![]).unwrap();
    assert_eq!(
        interp.wire_json(&v),
        "{\"current\":{\"temperature_2m\":12.3,\"relative_humidity_2m\":80,\"wind_speed_10m\":5.2}}"
    );
    interp.answer(Reply::Text(s("{}")));
    let v = interp.call("typed", vec![]).unwrap();
    assert_eq!(interp.wire_json(&v), "{\"current\":null}");
}

#[test]
fn a_password_is_verified_by_its_hash() {
    let h = xeres::session::hash_password("s3cret").unwrap();
    assert_ne!(h, "s3cret");
    assert!(h.starts_with("$argon2id$"), "{}", h);
    let r = run(vec![], call("verify", vec![text("s3cret"), Expr::Str(h.clone())]));
    assert!(matches!(r, Ok(Value::Bool(true))));
    let r = run(vec![], call("verify", vec![text("other"), Expr::Str(h)]));
    assert!(matches!(r, Ok(Value::Bool(false))));
    let r = run(vec![], call("verify", vec![text("s3cret"), text("no hash")]));
    assert!(matches!(r, Ok(Value::Bool(false))));
    let r = run(vec![], call("hash", vec![text("s3cret")]));
    assert!(matches!(&r, Err(Stop::Need(Effect::Hash(p))) if p == "s3cret"));
}
