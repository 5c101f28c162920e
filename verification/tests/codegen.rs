use xeres::ast::{
    ApiNode, ApiRoute, BinOp, EndpointNode, EnvModifier, Expr, FunctionNode, Handler, ModelNode, Param, PropertyNode, ScreenNode,
    Stmt, StyleNode, ThemeNode, ThemeToken, ViewNode, XeresProgram,
};
use xeres::client::{gen_client, gen_router, path_of};
use xeres::codegen::generate_checked;
use xeres::css::{build_token_map, gen_stylesheet, inline_css, resolve_tokens, token_var_name};
use xeres::emit_view::map_tag;
use xeres::fmt::float_lit;
use xeres::index::{gen_cargo, gen_index, inject_css_link};
use xeres::lower::lower;
use xeres::runtime::{Runtime, SECURITY_HEADERS};
use xeres::server::gen_server;
use xeres::strmap::StrMap;
use xeres::uses::uses_decimal;

fn empty_program() -> XeresProgram {
    XeresProgram {
        models: vec![],
        enums: vec![],
        functions: vec![],
        states: vec![],
        screens: vec![],
        endpoints: vec![],
        apis: vec![],
        imports: vec![],
        requires_caps: vec![],
        themes: vec![],
        styles: vec![],
    }
}

fn element(tag: &str, arg: Option<Expr>, children: Vec<ViewNode>) -> ViewNode {
    ViewNode::Element {
        tag: tag.to_string(),
        arg,
        style: None,
        bind: None,
        event: None,
        children,
    }
}

fn home() -> ScreenNode {
    ScreenNode {
        name: "Home".to_string(),
        params: vec![],
        states: vec![],
        load: vec![],
        body: vec![element(
            "column",
            None,
            vec![element("heading", Some(Expr::Str("hi".to_string())), vec![])],
        )],
        is_component: false,
        is_auth: false,
        route: None,
        line: 1,
        module: String::new(),
    }
}

fn runtime() -> Runtime {
    Runtime {
        mount: String::new(),
        sync: String::new(),
        decimal: String::new(),
        theme: String::new(),
    }
}

#[test]
fn emitted_server_embeds_the_shared_security_headers() {
    let mut program = empty_program();
    program.screens = vec![home()];
    let (server, ..) = generate_checked(&program, &StrMap::new(), &runtime()).unwrap();

    let expected = format!("const SECURITY_HEADERS: &str = {:?};", SECURITY_HEADERS);
    assert!(
        server.contains(&expected),
        "emitted server does not embed the shared SECURITY_HEADERS constant"
    );
    assert!(
        !server.contains("//__XERES_SECURITY_HEADERS__"),
        "the security-headers placeholder was left unfilled in the emitted server"
    );
    assert!(
        SECURITY_HEADERS.contains("frame-ancestors 'none'")
            && server.contains("frame-ancestors 'none'"),
        "the CSP frame-ancestors directive drifted between the constant and the emitted server"
    );
}

fn s(t: &str) -> String {
    t.to_string()
}

fn model(name: &str, props: &[(&str, &str, bool)]) -> ModelNode {
    ModelNode {
        name: s(name),
        properties: props
            .iter()
            .map(|(n, t, secret)| PropertyNode {
                name: s(n),
                data_type: s(t),
                is_secret: *secret,
                line: 1,
            })
            .collect(),
        line: 1,
        module: String::new(),
    }
}

fn server_fn(name: &str, params: &[(&str, &str)], ret: &str, body: Expr) -> FunctionNode {
    FunctionNode {
        env: EnvModifier::Server,
        is_auth: false,
        is_pub: false,
        name: s(name),
        params: params.iter().map(|(n, t)| Param { name: s(n), ty: s(t) }).collect(),
        return_type: Some(s(ret)),
        body: vec![Stmt::Return(body)],
        line: 1,
        module: String::new(),
    }
}

#[test]
fn secret_fields_are_stripped_from_the_client() {
    let client = |ty: &str| {
        let mut p = empty_program();
        p.models.push(model("User", &[("name", "String", false), ("token", ty, true)]));
        gen_client(&p, &runtime())
    };
    assert!(client("String").contains(
        "export interface User {\n  name: string;\n  // token: <stripped> — secret never crosses the wire\n}\n"
    ));
    assert_eq!(client("String"), client("Int"));
}

#[test]
fn server_functions_become_calls_in_the_browser() {
    let client = |body: Expr| {
        let mut p = empty_program();
        p.functions.push(server_fn("double", &[("n", "Int")], "Int", body));
        gen_client(&p, &runtime())
    };
    let text = client(Expr::Int(42));
    assert!(text.contains(
        "export async function double(n: number): Promise<number> {\n  return __rpc(\"double\", [n]);\n}\n"
    ));
    assert_eq!(text, client(Expr::Int(7)));
}

#[test]
fn the_server_keeps_every_field_and_sends_the_public_ones() {
    let mut p = empty_program();
    p.models.push(model("User", &[("name", "String", false), ("token", "String", true)]));
    let text = gen_server(&p);
    assert!(text.contains("pub token: String"));
    assert!(text.contains("// token is secret — not serialized"));
    assert!(!text.contains("self.token"));
}

#[test]
fn an_endpoints_host_is_baked_in() {
    let mut p = empty_program();
    p.endpoints.push(EndpointNode {
        name: s("weather"),
        base: s("https://api.example.com"),
        secrets: vec![(s("key"), s("String"))],
        line: 1,
        module: String::new(),
    });
    let text = gen_server(&p);
    assert!(text.contains("const __EP_WEATHER_BASE: &str = \"https://api.example.com\";"));
    assert!(text.contains("std::env::var(\"WEATHER_KEY\")"));
    assert!(gen_cargo(&p).contains("ureq = \"2\""));
    assert!(!gen_cargo(&empty_program()).contains("ureq"));
}

#[test]
fn a_recursive_model_is_decoded_nowhere() {
    let generated = |p: &XeresProgram| generate_checked(p, &StrMap::new(), &runtime());
    let mut p = empty_program();
    p.models.push(model("Node", &[("id", "String", false), ("kids", "List<Node>", false)]));
    p.functions.push(server_fn("tree", &[], "List<Node>", Expr::ListLit(vec![])));
    let (server, ..) = generated(&p).unwrap();
    assert!(server.contains("pub kids: Vec<Node>"));
    assert!(server.contains("\"/__xeres/tree\" => Some((200, tree_rpc()))"));

    p.functions.push(server_fn("count", &[("n", "Optional<Node>")], "Int", Expr::Int(0)));
    assert!(generated(&p).is_none());
    p.functions[1].env = EnvModifier::Ui;
    assert!(generated(&p).is_some());

    p.apis.push(ApiNode {
        base: s("/x"),
        routes: vec![ApiRoute {
            method: s("POST"),
            path: s("/s"),
            body: Some(Param { name: s("m"), ty: s("Node") }),
            return_type: None,
            body_stmts: vec![],
            line: 1,
        }],
        line: 1,
        module: String::new(),
    });
    assert!(generated(&p).is_none());
    p.apis[0].routes[0].body = None;
    assert!(generated(&p).is_some());

    let read = || Expr::MethodCall {
        receiver: Box::new(Expr::Ident(s("hub"))),
        method: s("get"),
        args: vec![Expr::Str(s("/t"))],
    };
    p.functions.push(server_fn("fetch", &[], "Node", read()));
    assert!(generated(&p).is_some());
    p.endpoints.push(EndpointNode {
        name: s("hub"),
        base: s("https://hub"),
        secrets: vec![],
        line: 1,
        module: String::new(),
    });
    assert!(generated(&p).is_none());
    p.functions[2].return_type = Some(s("String"));
    assert!(generated(&p).is_some());
}

#[test]
fn money_in_an_inbound_route_is_seen() {
    let amt = |name: &str| Expr::Field { base: Box::new(Expr::Ident(s("m"))), field: s(name) };
    let sum = Expr::Binary { op: BinOp::Add, left: Box::new(amt("a")), right: Box::new(amt("b")) };
    let mut p = empty_program();
    p.models.push(model("Amt", &[("a", "Decimal", false), ("b", "Decimal", false)]));
    p.apis.push(ApiNode {
        base: s("/x"),
        routes: vec![ApiRoute {
            method: s("POST"),
            path: s("/s"),
            body: Some(Param { name: s("m"), ty: s("Amt") }),
            return_type: Some(s("Amt")),
            body_stmts: vec![Stmt::Return(Expr::Record {
                name: s("Amt"),
                fields: vec![(s("a"), sum), (s("b"), amt("b"))],
            })],
            line: 1,
        }],
        line: 1,
        module: String::new(),
    });
    assert!(!uses_decimal(&p));
    lower(&mut p);
    assert!(uses_decimal(&p));
    assert!(gen_cargo(&p).contains("rust_decimal"));
}

#[test]
fn a_float_is_printed_in_canonical_form() {
    let mut p = empty_program();
    p.functions.push(server_fn("rate", &[], "Float", Expr::Float(s("01.50"))));
    assert!(gen_server(&p).contains("return 1.5;"));
    for (literal, number) in [
        ("0.0", 0.0),
        ("2.0", 2.0),
        ("007.250", 7.25),
        ("0.0001", 0.0001),
        ("0.00010", 0.0001),
        ("0.00001", 0.00001),
        ("0.0000123", 0.0000123),
        ("1234567890123456.0", 1234567890123456.0),
        ("9999999999999998.0", 9999999999999998.0),
        ("10000000000000000.0", 10000000000000000.0),
        ("125000000000000000000.0", 125000000000000000000.0),
        ("30000000000000000.00", 30000000000000000.0),
    ] {
        assert_eq!(float_lit(literal), format!("{:?}", number));
    }
}

fn theme(is_dark: bool, tokens: &[(&str, &str, &str)]) -> ThemeNode {
    ThemeNode {
        is_dark,
        tokens: tokens
            .iter()
            .map(|(c, n, v)| ThemeToken { category: s(c), name: s(n), value: s(v), line: 1 })
            .collect(),
    }
}

#[test]
fn tokens_become_variables() {
    assert_eq!(token_var_name("color", "primary"), "primary");
    assert_eq!(token_var_name("space", "md"), "space-md");
    let themes = vec![theme(false, &[("color", "primary", "red"), ("space", "md", "8px")])];
    let map = build_token_map(&themes);
    assert_eq!(
        resolve_tokens("color: token(primary); padding: token( md )", &map),
        "color: var(--primary); padding: var(--space-md)"
    );
    assert_eq!(resolve_tokens("a: token(nope)", &map), "a: token(nope)");
    assert_eq!(resolve_tokens("a: token(primary", &map), "a: token(primary");
}

#[test]
fn a_style_cannot_end_its_attribute() {
    assert_eq!(inline_css("  font:\n  \"Inter\"  "), "font: &quot;Inter&quot;");
    assert!(!inline_css("\"\"\"").contains('"'));
}

#[test]
fn a_stylesheet_holds_both_themes_and_the_styles() {
    let mut p = empty_program();
    assert_eq!(gen_stylesheet(&p), "");
    p.themes.push(theme(false, &[("color", "bg", "white")]));
    p.themes.push(theme(true, &[("color", "bg", "black")]));
    p.styles.push(StyleNode { name: s("Card"), css: s("background: token(bg)"), line: 1 });
    let css = gen_stylesheet(&p);
    assert!(css.starts_with(
        ":root {\n  --bg: white;\n}\n\n@media (prefers-color-scheme: dark) {\n  :root {\n    --bg: black;\n  }\n}\n\n[data-theme=\"dark\"] {\n  --bg: black;\n}\n"
    ));
    assert!(css.contains("background: var(--bg)"));
}

#[test]
fn a_generated_page_links_the_stylesheet_that_there_is() {
    let link = "<link rel=\"stylesheet\" href=\"/app.css\">";
    let mut styled = home();
    if let ViewNode::Element { style, .. } = &mut styled.body[0] {
        *style = Some(Expr::Ident("Card".to_string()));
    }
    for screens in [vec![], vec![home()], vec![styled]] {
        let mut p = empty_program();
        p.screens = screens;
        let out = generate_checked(&p, &StrMap::new(), &runtime()).unwrap();
        assert_eq!(out.4, "");
        assert!(!out.2.contains(link));
        p.styles.push(StyleNode { name: "Card".to_string(), css: "color: red".to_string(), line: 1 });
        let mut returns = StrMap::new();
        returns.insert("leak".to_string(), true);
        let styled = generate_checked(&p, &returns, &runtime()).unwrap();
        assert!(!styled.4.is_empty());
        assert!(styled.2.contains(link));
        assert_eq!(generate_checked(&p, &StrMap::new(), &runtime()).unwrap(), styled);
    }
}

#[test]
fn the_page_links_its_stylesheet() {
    assert_eq!(
        inject_css_link("<head></head>", true),
        "<head><link rel=\"stylesheet\" href=\"/app.css\">\n</head>"
    );
    assert_eq!(inject_css_link("<head></head>", false), "<head></head>");
    let mut p = empty_program();
    assert!(gen_index(&p, false).contains("Add a <code>ui screen Name { … }</code> to app.xrs."));
    p.screens.push(home());
    assert!(gen_index(&p, false).contains("<script type=\"module\" src=\"/client.js\"></script>"));
}

#[test]
fn screens_have_paths_and_tags() {
    assert_eq!(path_of("Home", "Home"), "/");
    assert_eq!(path_of("About", "Home"), "/about");
    assert_eq!(map_tag("column"), "div");
    assert_eq!(map_tag("heading"), "h1");
    assert_eq!(map_tag("section"), "section");
    assert!(gen_router(&vec![home()]).contains("Home"));
}

#[test]
fn texts_on_a_screen_are_escaped() {
    let mut p = empty_program();
    let mut screen = home();
    screen.params.push(Param { name: s("who"), ty: s("String") });
    screen.body = vec![
        element("text", Some(Expr::Ident(s("who"))), vec![]),
        ViewNode::Element {
            tag: s("button"),
            arg: Some(Expr::Str(s("go"))),
            style: None,
            bind: None,
            event: Some(Handler::Call(Expr::Call { callee: s("go"), args: vec![] })),
            children: vec![],
        },
    ];
    p.screens.push(screen);
    let text = gen_client(&p, &runtime());
    assert!(text.contains("__esc("));
    assert!(text.contains("<button"));
}
