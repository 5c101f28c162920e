use xeres::analysis::analyze;
use xeres::ast::{
    ApiNode, ApiRoute, BinOp, EnumNode, EndpointNode, EnvModifier, Expr, FunctionNode, Handler, ImportNode, MatchArm, MatchPat,
    ModelNode, Param, PropertyNode, ScreenNode, StateNode, Stmt, SyncedStateNode, ViewNode,
    XeresProgram,
};
use xeres::diagnostics::{report, Diagnostic};
use xeres::lower::lower;
use xeres::modules::{load_program, module_name, Child, Content, Loading, SourceFile};
use xeres::strmap::StrMap;

fn empty_program() -> XeresProgram {
    XeresProgram {
        models: vec![],
        enums: vec![],
        functions: vec![],
        states: vec![],
        screens: vec![],
        endpoints: vec![],
        apis: vec![],
        imports: vec![],
        requires_caps: vec![],
        themes: vec![],
        styles: vec![],
    }
}

fn s(t: &str) -> String {
    t.to_string()
}

fn ident(n: &str) -> Expr {
    Expr::Ident(s(n))
}

fn text(t: &str) -> Expr {
    Expr::Str(s(t))
}

fn call(name: &str, args: Vec<Expr>) -> Expr {
    Expr::Call { callee: s(name), args }
}

fn method(recv: Expr, name: &str, args: Vec<Expr>) -> Expr {
    Expr::MethodCall { receiver: Box::new(recv), method: s(name), args }
}

fn field(base: Expr, name: &str) -> Expr {
    Expr::Field { base: Box::new(base), field: s(name) }
}

fn bin(op: BinOp, l: Expr, r: Expr) -> Expr {
    Expr::Binary { op, left: Box::new(l), right: Box::new(r) }
}

fn func(
    env: EnvModifier,
    name: &str,
    params: &[(&str, &str)],
    ret: Option<&str>,
    body: Vec<Stmt>,
    line: usize,
) -> FunctionNode {
    FunctionNode {
        env,
        is_auth: false,
        is_pub: false,
        name: s(name),
        params: params.iter().map(|(n, t)| Param { name: s(n), ty: s(t) }).collect(),
        return_type: ret.map(s),
        body,
        line,
        module: String::new(),
    }
}

fn server(name: &str, params: &[(&str, &str)], ret: &str, body: Expr) -> FunctionNode {
    func(EnvModifier::Server, name, params, Some(ret), vec![Stmt::Return(body)], 1)
}

fn model(name: &str, props: &[(&str, &str, bool)]) -> ModelNode {
    ModelNode {
        name: s(name),
        properties: props
            .iter()
            .map(|(n, t, secret)| PropertyNode {
                name: s(n),
                data_type: s(t),
                is_secret: *secret,
                line: 1,
            })
            .collect(),
        line: 1,
        module: String::new(),
    }
}

fn screen(name: &str, states: Vec<StateNode>, body: Vec<ViewNode>) -> ScreenNode {
    ScreenNode {
        name: s(name),
        params: vec![],
        states,
        load: vec![],
        body,
        is_component: false,
        is_auth: false,
        route: None,
        line: 1,
        module: String::new(),
    }
}

fn rules(p: &XeresProgram) -> Vec<String> {
    analyze(p).errors.iter().map(|e| e.rule.split(' ').next().unwrap().to_string()).collect()
}

fn of(functions: Vec<FunctionNode>) -> XeresProgram {
    let mut p = empty_program();
    p.functions = functions;
    p
}

#[test]
fn a_sound_program_is_accepted() {
    let p = of(vec![server("add", &[("a", "Int"), ("b", "Int")], "Int", bin(BinOp::Add, ident("a"), ident("b")))]);
    assert!(rules(&p).is_empty());
    assert!(rules(&empty_program()).is_empty());
}

#[test]
fn types_and_names_are_checked() {
    let mut p = empty_program();
    p.models.push(model("A", &[("x", "Nope", false)]));
    assert_eq!(rules(&p), vec!["R1"]);
    let mut p = empty_program();
    p.models.push(model("A", &[("x", "Int", false), ("x", "Int", false)]));
    assert_eq!(rules(&p), vec!["R2"]);
    let p = of(vec![server("f", &[], "Int", text("x"))]);
    assert_eq!(rules(&p), vec!["R7"]);
    let mut p = empty_program();
    p.models.push(model("A", &[("x", "Int", false)]));
    p.functions.push(server("f", &[], "A", Expr::Record { name: s("A"), fields: vec![] }));
    assert_eq!(rules(&p), vec!["R9"]);
}

fn users() -> XeresProgram {
    let mut p = empty_program();
    p.models.push(model("User", &[("name", "String", false), ("token", "String", true)]));
    p
}

#[test]
fn secrets_stay_on_the_server() {
    let mut p = users();
    p.functions.push(server("leak", &[("u", "User")], "String", field(ident("u"), "token")));
    assert_eq!(rules(&p), vec!["R5"]);
    let mut p = users();
    p.functions.push(server(
        "release",
        &[("u", "User")],
        "String",
        Expr::Declassify(Box::new(field(ident("u"), "token"))),
    ));
    assert!(rules(&p).is_empty());
    let mut p = users();
    p.functions.push(server("whole", &[("u", "User")], "User", ident("u")));
    assert!(rules(&p).is_empty());
    let mut p = users();
    p.functions.push(func(
        EnvModifier::Ui,
        "show",
        &[("u", "User")],
        Some("String"),
        vec![Stmt::Return(field(ident("u"), "token"))],
        3,
    ));
    assert!(rules(&p).contains(&s("R3")));
}

#[test]
fn a_leak_through_a_call_is_found() {
    let mut p = users();
    p.functions.push(server("inner", &[("u", "User")], "String", field(ident("u"), "token")));
    p.functions.push(server("outer", &[("u", "User")], "String", call("inner", vec![ident("u")])));
    let a = analyze(&p);
    assert_eq!(a.errors.len(), 2);
    assert_eq!(a.returns_secret.get("outer"), Some(&true));
    assert_eq!(a.returns_secret.get("inner"), Some(&true));
}

fn sql(env: EnvModifier, arg: Expr) -> XeresProgram {
    of(vec![func(
        env,
        "q",
        &[("v", "String")],
        None,
        vec![Stmt::If {
            cond: Expr::Bool(true),
            then_body: vec![Stmt::Expr(method(ident("db"), "exec", vec![arg]))],
            else_body: vec![],
        }],
        2,
    )])
}

#[test]
fn the_database_is_the_servers_and_its_sql_a_literal() {
    assert!(rules(&sql(EnvModifier::Server, text("DELETE FROM t"))).is_empty());
    let built = bin(BinOp::Add, text("DELETE FROM "), ident("v"));
    assert_eq!(rules(&sql(EnvModifier::Server, built)), vec!["R23"]);
    assert_eq!(rules(&sql(EnvModifier::Ui, text("DELETE FROM t"))), vec!["R15"]);
}

#[test]
fn a_screen_has_no_authority() {
    let mut p = empty_program();
    p.screens.push(screen(
        "Home",
        vec![],
        vec![ViewNode::Element {
            tag: s("button"),
            arg: Some(text("go")),
            style: None,
            bind: None,
            event: Some(Handler::Block(vec![Stmt::Expr(method(
                ident("db"),
                "exec",
                vec![text("DELETE FROM t")],
            ))])),
            children: vec![],
        }],
    ));
    assert!(rules(&p).contains(&s("R15")));
}

#[test]
fn a_route_builds_no_sql() {
    let mut p = empty_program();
    p.apis.push(ApiNode {
        base: s("/api"),
        routes: vec![ApiRoute {
            method: s("GET"),
            path: s("/x"),
            body: None,
            return_type: None,
            body_stmts: vec![Stmt::Expr(method(
                ident("db"),
                "exec",
                vec![bin(BinOp::Add, text("DELETE FROM "), text("t"))],
            ))],
            line: 1,
        }],
        line: 1,
        module: String::new(),
    });
    assert_eq!(rules(&p), vec!["R23"]);
}

#[test]
fn money_is_not_mixed_with_fractions() {
    let p = of(vec![server(
        "f",
        &[("a", "Decimal"), ("b", "Float")],
        "Decimal",
        bin(BinOp::Add, ident("a"), ident("b")),
    )]);
    assert_eq!(rules(&p)[0], "R29");
    let p = of(vec![server(
        "f",
        &[("a", "Decimal"), ("b", "Int")],
        "Decimal",
        bin(BinOp::Mul, ident("a"), ident("b")),
    )]);
    assert!(rules(&p).is_empty());
}

#[test]
fn a_match_covers_its_enum() {
    let arms = |names: &[&str]| {
        names
            .iter()
            .map(|n| MatchArm { pattern: MatchPat::Variant(s(n)), body: vec![] })
            .collect::<Vec<_>>()
    };
    let program = |arms: Vec<MatchArm>| {
        let mut p = of(vec![func(
            EnvModifier::Server,
            "f",
            &[("c", "Color")],
            None,
            vec![Stmt::Match { scrutinee: ident("c"), arms }],
            1,
        )]);
        p.enums.push(EnumNode {
            name: s("Color"),
            variants: vec![s("Red"), s("Green")],
            line: 1,
            module: String::new(),
        });
        p
    };
    assert!(rules(&program(arms(&["Red", "Green"]))).is_empty());
    assert_eq!(rules(&program(arms(&["Red"]))), vec!["R20"]);
    assert_eq!(rules(&program(arms(&["Red", "Green", "Blue"]))), vec!["R20"]);
    let mut rest = arms(&["Red"]);
    rest.push(MatchArm { pattern: MatchPat::Wildcard, body: vec![] });
    assert!(rules(&program(rest)).is_empty());
}

#[test]
fn tiers_keep_their_builtins() {
    let ui = |body: Vec<Stmt>| of(vec![func(EnvModifier::Ui, "f", &[], None, body, 1)]);
    assert_eq!(
        rules(&ui(vec![Stmt::Expr(call("hash", vec![text("x")]))])),
        vec!["R19"]
    );
    assert_eq!(rules(&ui(vec![Stmt::Transaction(vec![])])), vec!["R33"]);
    assert_eq!(
        rules(&ui(vec![Stmt::Expr(method(ident("session"), "logout", vec![]))])),
        vec!["R24"]
    );
    let server_try = of(vec![func(
        EnvModifier::Server,
        "f",
        &[],
        None,
        vec![Stmt::Try { body: vec![], handler: vec![] }],
        1,
    )]);
    assert_eq!(rules(&server_try), vec!["R16"]);
}

#[test]
fn synced_collections_need_a_key() {
    let program = |props: &[(&str, &str, bool)]| {
        let mut p = empty_program();
        p.models.push(model("Note", props));
        p.states.push(SyncedStateNode {
            name: s("notes"),
            collection_type: s("Note"),
            line: 4,
            module: String::new(),
        });
        p
    };
    assert!(rules(&program(&[("id", "String", false), ("body", "String", false)])).is_empty());
    assert_eq!(rules(&program(&[("body", "String", false)])), vec!["R10"]);
}

#[test]
fn a_screen_names_what_it_has() {
    let mut p = empty_program();
    p.screens.push(screen(
        "Home",
        vec![],
        vec![ViewNode::Element {
            tag: s("text"),
            arg: Some(ident("missing")),
            style: None,
            bind: None,
            event: None,
            children: vec![],
        }],
    ));
    assert_eq!(rules(&p), vec!["R8"]);
    let mut p = empty_program();
    p.screens.push(screen(
        "Home",
        vec![StateNode { name: s("n"), ty: s("Int"), init: text("x"), line: 2 }],
        vec![],
    ));
    assert_eq!(rules(&p), vec!["R11"]);
}

#[test]
fn findings_come_in_line_order() {
    let bad = |name: &str, line: usize| {
        func(EnvModifier::Server, name, &[], Some("Int"), vec![Stmt::Return(text("x"))], line)
    };
    let p = of(vec![bad("a", 9), bad("b", 2), bad("c", 5)]);
    let lines: Vec<usize> = analyze(&p).errors.iter().map(|e| e.line).collect();
    assert_eq!(lines, vec![2, 5, 9]);
}

#[test]
fn a_finding_is_shown_with_its_line() {
    let mut sources: StrMap<String> = StrMap::new();
    sources.insert(s("app.xrs"), s("one\ntwo\n"));
    let found = vec![
        Diagnostic { file: String::new(), line: 2, rule: "R1 x", message: s("no") },
        Diagnostic { file: String::new(), line: 3, rule: "R2 y", message: s("far") },
        Diagnostic { file: s("m.xrs"), line: 1, rule: "R3 z", message: s("gone") },
    ];
    let shown = report(&found, "app.xrs", &sources);
    let lines: Vec<String> = (0..shown.len()).map(|i| shown.get(i).clone()).collect();
    assert_eq!(
        lines,
        vec![
            "error: [R1 x] no",
            "  --> app.xrs:2",
            "     |",
            "   2 | two",
            "     |",
            "",
            "error: [R2 y] far",
            "  --> app.xrs:3",
            "",
            "error: [R3 z] gone",
            "  --> m.xrs:1",
            "",
        ]
    );
}

#[test]
fn money_operators_become_calls() {
    let mut p = of(vec![server(
        "f",
        &[("a", "Decimal"), ("b", "Decimal")],
        "Decimal",
        bin(BinOp::Add, ident("a"), ident("b")),
    )]);
    lower(&mut p);
    assert!(matches!(
        &p.functions[0].body[0],
        Stmt::Return(Expr::Call { callee, args }) if callee == "__dec_add" && args.len() == 2
    ));
    let mut p = of(vec![server(
        "f",
        &[("a", "Int"), ("b", "Int")],
        "Int",
        bin(BinOp::Add, ident("a"), ident("b")),
    )]);
    lower(&mut p);
    assert!(matches!(&p.functions[0].body[0], Stmt::Return(Expr::Binary { .. })));
}

#[test]
fn lowering_twice_is_lowering_once() {
    let mut p = of(vec![
        server(
            "f",
            &[("a", "Decimal"), ("b", "Decimal")],
            "String",
            bin(BinOp::Add, text("sum "), bin(BinOp::Add, ident("a"), ident("b"))),
        ),
        server(
            "g",
            &[("xs", "List<Decimal>"), ("d", "Decimal")],
            "Bool",
            method(
                method(
                    ident("xs"),
                    "map",
                    vec![Expr::Closure {
                        params: vec![s("x")],
                        body: Box::new(bin(BinOp::Mul, ident("x"), Expr::Int(2))),
                    }],
                ),
                "contains",
                vec![ident("d")],
            ),
        ),
    ]);
    lower(&mut p);
    let once = format!("{:?}", p);
    assert!(once.contains("__dec_add") && once.contains("__str_concat"));
    assert!(once.contains("__dec_mul") && once.contains("__list_contains"));
    lower(&mut p);
    assert_eq!(format!("{:?}", p), once);
}

#[test]
fn only_functions_that_return_secrets_are_marked() {
    let mut p = of(vec![
        server("a", &[("n", "Int")], "Int", call("b", vec![ident("n")])),
        server("b", &[("n", "Int")], "Int", call("a", vec![ident("n")])),
        server("c", &[("u", "User")], "String", field(ident("u"), "token")),
        server("d", &[("u", "User")], "String", call("c", vec![ident("u")])),
    ]);
    p.models.push(ModelNode {
        name: s("User"),
        properties: vec![PropertyNode {
            name: s("token"),
            data_type: s("String"),
            is_secret: true,
            line: 1,
        }],
        line: 1,
        module: String::new(),
    });
    let a = analyze(&p);
    assert_eq!(a.returns_secret.get("a"), Some(&false));
    assert_eq!(a.returns_secret.get("b"), Some(&false));
    assert_eq!(a.returns_secret.get("c"), Some(&true));
    assert_eq!(a.returns_secret.get("d"), Some(&true));
}

fn file(key: &str, mut program: XeresProgram, imports: &[(&str, &[&str])]) -> SourceFile {
    program.imports = imports
        .iter()
        .map(|(path, grants)| ImportNode {
            path: s(path),
            grants: grants.iter().map(|g| s(g)).collect(),
            line: 1,
        })
        .collect();
    let children =
        imports.iter().map(|(path, _)| Child { key: s(path), display: s(path) }).collect();
    SourceFile { key: s(key), content: Content::Parsed { program, children } }
}

fn failures(files: Vec<SourceFile>) -> Vec<String> {
    match load_program("app.xrs", "app.xrs", files) {
        Loading::Failed(es) => es.iter().map(|e| s(e.rule)).collect(),
        Loading::Program(_) => vec![],
        Loading::Needs { key, .. } => panic!("{} is missing", key),
    }
}

fn public(mut f: FunctionNode) -> FunctionNode {
    f.is_pub = true;
    f
}

#[test]
fn files_are_asked_for_and_named() {
    let files = vec![file("app.xrs", empty_program(), &[("lib/money.xrs", &[])])];
    match load_program("app.xrs", "app.xrs", files) {
        Loading::Needs { key, .. } => assert_eq!(key, "lib/money.xrs"),
        _ => panic!("expected a missing file"),
    }
    assert_eq!(module_name("a/b/money.xrs"), "money");
    assert_eq!(module_name("std:math"), "math");
}

#[test]
fn a_cycle_of_imports_is_refused() {
    let files = vec![
        file("app.xrs", empty_program(), &[("a.xrs", &[])]),
        file("a.xrs", empty_program(), &[("b.xrs", &[])]),
        file("b.xrs", empty_program(), &[("a.xrs", &[])]),
    ];
    assert_eq!(failures(files).len(), 1);
}

#[test]
fn a_file_imported_twice_loads_once() {
    let money = of(vec![public(server("one", &[], "Int", Expr::Int(1)))]);
    let files = vec![
        file("app.xrs", empty_program(), &[("a.xrs", &[]), ("money.xrs", &[])]),
        file("a.xrs", empty_program(), &[("money.xrs", &[])]),
        file("money.xrs", money, &[]),
    ];
    match load_program("app.xrs", "app.xrs", files) {
        Loading::Program(p) => assert_eq!(p.functions.len(), 1),
        _ => panic!("expected a program"),
    }
}

#[test]
fn a_file_that_cannot_be_read_is_reported() {
    let files = vec![
        file("app.xrs", empty_program(), &[("a.xrs", &[])]),
        SourceFile { key: s("a.xrs"), content: Content::Unreadable(s("not there")) },
    ];
    assert_eq!(failures(files).len(), 1);
}

#[test]
fn two_files_cannot_share_a_module_name() {
    let files = vec![
        file("app.xrs", empty_program(), &[("x/m.xrs", &[]), ("y/m.xrs", &[])]),
        file("x/m.xrs", empty_program(), &[]),
        file("y/m.xrs", empty_program(), &[]),
    ];
    assert_eq!(failures(files), vec!["R35 module-visibility"]);
}

fn app_calling(e: Expr) -> XeresProgram {
    of(vec![server("go", &[], "Int", e)])
}

#[test]
fn only_exported_functions_cross_a_module_boundary() {
    let lib = || {
        of(vec![
            public(server("open", &[], "Int", Expr::Int(1))),
            server("hidden", &[], "Int", Expr::Int(2)),
        ])
    };
    let with = |e: Expr| {
        vec![file("app.xrs", app_calling(e), &[("m.xrs", &[])]), file("m.xrs", lib(), &[])]
    };
    assert!(failures(with(method(ident("m"), "open", vec![]))).is_empty());
    assert_eq!(
        failures(with(method(ident("m"), "hidden", vec![]))),
        vec!["R35 module-visibility"]
    );
    assert_eq!(failures(with(call("open", vec![]))), vec!["R35 module-visibility"]);
    let nested = bin(BinOp::Add, Expr::Int(1), method(ident("m"), "hidden", vec![]));
    assert_eq!(failures(with(nested)), vec!["R35 module-visibility"]);
}

fn store(requires: &[&str]) -> XeresProgram {
    let mut p = of(vec![public(func(
        EnvModifier::Server,
        "save",
        &[],
        None,
        vec![Stmt::Expr(method(ident("db"), "exec", vec![text("DELETE FROM t")]))],
        3,
    ))]);
    p.requires_caps = requires.iter().map(|c| s(c)).collect();
    p
}

#[test]
fn capabilities_are_declared_and_granted() {
    let with = |requires: &[&str], grants: &[&str]| {
        vec![file("app.xrs", empty_program(), &[("m.xrs", grants)]), file("m.xrs", store(requires), &[])]
    };
    assert!(failures(with(&["db"], &["db"])).is_empty());
    assert_eq!(failures(with(&["db"], &[])), vec!["R34 module-capability"]);
    assert_eq!(failures(with(&[], &[])), vec!["R34 module-capability"]);
    assert!(failures(vec![file("app.xrs", store(&[]), &[])]).is_empty());
}

#[test]
fn an_endpoint_is_a_capability_too() {
    let mut lib = empty_program();
    lib.endpoints.push(EndpointNode {
        name: s("weather"),
        base: s("https://w"),
        secrets: vec![],
        line: 1,
        module: String::new(),
    });
    let files = vec![
        file("app.xrs", empty_program(), &[("m.xrs", &[])]),
        file("m.xrs", lib, &[]),
    ];
    assert_eq!(failures(files), vec!["R34 module-capability"]);
}
