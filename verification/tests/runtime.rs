use xeres::ast::{
    ApiNode, ApiRoute, EnumNode, EnvModifier, FunctionNode, ModelNode, PropertyNode, ScreenNode, XeresProgram,
};
use xeres::http::{
    content_length, cookie_value, decide, dispatch, find_subseq, forbidden, frame, header_value,
    rand_token, reason, response_text, serve_static, static_file, take_request, token_cookie, Frame,
    Request, Route,
};
use xeres::json::{decode, jparse, number_texts, J};
use xeres::money::{
    __dec_add, __dec_ge, __dec_gt, __dec_le, __dec_lt, __dec_mul, __dec_sub, Operand,
};
use xeres::project::{
    abort_summary, build_summary, find_source, load_env, screen_component_counts, serve_summary,
};
use xeres::session::{
    constant_eq, hash_password, hex, session_clear_cookie, session_secret, session_set_cookie,
    session_sign, session_verify, uid, verify_password,
};
use xeres::site::{find_rpc, is_protected_path, target, Target};
use xeres::strmap::StrMap;
use xeres::sync::{read_op, stamp_gt, sync_dispatch, Collection};
use xeres::text::Parts;
use xeres::transaction::{bearer_header, http_get, http_post, request_url, Transaction};
use xeres::value::{json_str, wire_json, Number, Value};

fn s(t: &str) -> String {
    t.to_string()
}

fn empty_program() -> XeresProgram {
    XeresProgram {
        models: vec![],
        enums: vec![],
        functions: vec![],
        states: vec![],
        screens: vec![],
        endpoints: vec![],
        apis: vec![],
        imports: vec![],
        requires_caps: vec![],
        themes: vec![],
        styles: vec![],
    }
}

fn model(name: &str, props: &[(&str, &str, bool)]) -> ModelNode {
    ModelNode {
        name: s(name),
        properties: props
            .iter()
            .map(|(n, t, secret)| PropertyNode {
                name: s(n),
                data_type: s(t),
                is_secret: *secret,
                line: 1,
            })
            .collect(),
        line: 1,
        module: String::new(),
    }
}

fn number(f: f64) -> Number {
    Number {
        text: f.to_string(),
        debug: format!("{:?}", f),
        whole: f as i64,
        integral: f.fract() == 0.0,
    }
}

fn numbers_of(j: &J) -> StrMap<Number> {
    let mut map: StrMap<Number> = StrMap::new();
    let ts = number_texts(j);
    for i in 0..ts.len() {
        let t = ts.get(i).clone();
        let f: f64 = t.parse().unwrap_or(0.0);
        map.insert(t, number(f));
    }
    map
}

fn counts_of(j: &J) -> StrMap<u64> {
    let mut map: StrMap<u64> = StrMap::new();
    let ts = number_texts(j);
    for i in 0..ts.len() {
        let t = ts.get(i).clone();
        let f: f64 = t.parse().unwrap_or(0.0);
        map.insert(t, f as u64);
    }
    map
}

fn member<'a>(v: &'a Value, k: &str) -> &'a Value {
    match v {
        Value::Record(_, fs) => fs.iter().find(|(n, _)| n == k).map(|(_, vv)| vv).unwrap(),
        _ => panic!("expected record, got {:?}", v),
    }
}

#[test]
fn endpoint_typed_response_decodes() {
    let mut program = empty_program();
    program.models.push(model(
        "Current",
        &[
            ("temperature_2m", "Float", false),
            ("relative_humidity_2m", "Int", false),
            ("wind_speed_10m", "Float", false),
        ],
    ));
    program.models.push(model("Forecast", &[("current", "Current", false)]));
    let json = "{\"current\":{\"temperature_2m\":12.3,\"relative_humidity_2m\":80,\"wind_speed_10m\":5.2},\"x\":1}";
    let parsed = jparse(json);
    let v = decode(Some(&parsed), "Forecast", &program, &numbers_of(&parsed));
    let cur = member(&v, "current");
    assert!(matches!(member(cur, "temperature_2m"), Value::Float(f) if (f.text.parse::<f64>().unwrap() - 12.3).abs() < 1e-9));
    assert!(matches!(member(cur, "relative_humidity_2m"), Value::Int(80)));
    assert!(matches!(member(cur, "wind_speed_10m"), Value::Float(f) if (f.text.parse::<f64>().unwrap() - 5.2).abs() < 1e-9));
}

#[test]
fn json_is_read_and_written() {
    let j = jparse(" { \"a\" : [ 1 , -2.5e3 , true , null ] , \"b\\nA\\q\" : \"x\\\"y\" } ");
    assert_eq!(j.get("a").unwrap().idx(1).unwrap().as_string(), "");
    assert!(matches!(j.get("a").unwrap().idx(1), Some(J::Num(t)) if t == "-2.5e3"));
    assert!(j.get("a").unwrap().idx(2).unwrap().as_bool());
    assert!(matches!(j.get("a").unwrap().idx(3), Some(J::Null)));
    assert!(j.get("a").unwrap().idx(4).is_none());
    assert!(j.get("c").is_none());
    assert_eq!(j.get("b\nAq").unwrap().str(), Some("x\"y"));
    assert_eq!(
        j.to_json(&numbers_of(&j)),
        "{\"a\":[1,-2500,true,null],\"b\\nAq\":\"x\\\"y\"}"
    );
    assert_eq!(j.get("a").unwrap().idx(1).unwrap().as_i64(&numbers_of(&j)), -2500);
}

#[test]
fn json_texts_read_back() {
    for t in ["", "plain", "a\"b\\c", "tab\there\nand\rthere", "\u{1}\u{1f}", "é☃"] {
        let j = jparse(&json_str(t));
        assert_eq!(j.str(), Some(t));
    }
    assert_eq!(json_str("a\"\n"), "\"a\\\"\\n\"");
}

#[test]
fn json_that_breaks_off_is_still_read() {
    assert!(matches!(jparse(""), J::Null));
    assert!(matches!(jparse("{\"a\":1"), J::Obj(fs) if fs.len() == 1));
    assert!(matches!(jparse("nonsense"), J::Null));
}

#[test]
fn decoding_leaves_out_what_is_missing() {
    let mut program = empty_program();
    program.models.push(model(
        "User",
        &[("name", "String", false), ("age", "Int", false), ("nick", "Optional<String>", false)],
    ));
    let j = jparse("{\"name\":\"Ada\"}");
    let v = decode(Some(&j), "User", &program, &numbers_of(&j));
    assert!(matches!(member(&v, "name"), Value::Str(n) if n == "Ada"));
    assert!(matches!(member(&v, "age"), Value::Null));
    assert!(matches!(member(&v, "nick"), Value::Null));
    let list = jparse("[{\"name\":\"A\"},{\"name\":\"B\"}]");
    match decode(Some(&list), "List<User>", &program, &numbers_of(&list)) {
        Value::List(items) => assert_eq!(items.len(), 2),
        other => panic!("expected a list, got {:?}", other),
    }
}

#[test]
fn secrets_do_not_cross_the_wire() {
    let mut program = empty_program();
    program.models.push(model("User", &[("name", "String", false), ("token", "String", true)]));
    let user = |token: &str| {
        Value::Record(
            s("User"),
            vec![(s("name"), Value::Str(s("Ada"))), (s("token"), Value::Str(s(token)))],
        )
    };
    assert_eq!(wire_json(&user("one"), &program), "{\"name\":\"Ada\"}");
    assert_eq!(wire_json(&user("one"), &program), wire_json(&user("two"), &program));
}

#[test]
fn a_session_is_signed_with_hmac_sha256() {
    let key = b"key".to_vec();
    let id = "The quick brown fox jumps over the lazy dog";
    let signed = session_sign(id, &key);
    assert_eq!(
        signed,
        format!("{}.f7bc83f430538424b13298e6aa6fb143ef4d59a14946175997479dbc2d1a3cd8", id)
    );
    assert_eq!(session_verify(&signed, &key), Some(s(id)));
    assert_eq!(session_verify(&signed, &b"other".to_vec()), None);
    assert_eq!(session_verify("no-signature", &key), None);
    assert_eq!(session_verify(&format!("{}0", signed), &key), None);
}

#[test]
fn an_id_with_dots_is_signed_whole() {
    let key = session_secret(&None);
    assert_eq!(key, b"xeres-insecure-dev-session-key".to_vec());
    assert_eq!(session_secret(&Some(s("k"))), b"k".to_vec());
    let signed = session_sign("a.b.c", &key);
    assert_eq!(session_verify(&signed, &key), Some(s("a.b.c")));
}

#[test]
fn cookies_are_kept_from_scripts() {
    let key = b"key".to_vec();
    assert_eq!(
        session_set_cookie("ada", &key),
        format!(
            "xeres_session={}; HttpOnly; Secure; SameSite=Strict; Path=/\r\nSet-Cookie: xeres_auth=1; Secure; SameSite=Strict; Path=/",
            session_sign("ada", &key)
        )
    );
    assert_eq!(
        session_clear_cookie(),
        "xeres_session=; HttpOnly; Secure; SameSite=Strict; Path=/; Max-Age=0\r\nSet-Cookie: xeres_auth=; Secure; SameSite=Strict; Path=/; Max-Age=0"
    );
}

#[test]
fn passwords_are_hashed_and_verified() {
    let h = hash_password("correct horse").unwrap();
    assert_ne!(h, "correct horse");
    assert!(h.starts_with("$argon2"));
    assert!(verify_password("correct horse", &h));
    assert!(!verify_password("battery staple", &h));
    assert!(!verify_password("correct horse", "not a hash"));
}

#[test]
fn bytes_are_written_as_hex() {
    assert_eq!(hex(&vec![0, 15, 255]), "000fff");
    assert_eq!(uid(255), "ff");
    assert_eq!(uid(0), "0");
    assert!(constant_eq(b"abc", b"abc"));
    assert!(!constant_eq(b"abc", b"abd"));
    assert!(!constant_eq(b"abc", b"ab"));
}

fn op(text: &str) -> xeres::sync::Op {
    let j = jparse(text);
    read_op(&j, &numbers_of(&j), &counts_of(&j))
}

#[test]
fn the_latest_write_of_a_field_wins() {
    let mut a = Collection::new();
    let first = op("{\"kind\":\"set\",\"id\":\"r\",\"field\":\"n\",\"value\":1,\"lamport\":1,\"site\":\"x\"}");
    let second = op("{\"kind\":\"set\",\"id\":\"r\",\"field\":\"n\",\"value\":2,\"lamport\":2,\"site\":\"a\"}");
    a.merge(&first);
    a.merge(&second);
    let mut b = Collection::new();
    b.merge(&second);
    b.merge(&first);
    b.merge(&first);
    assert_eq!(a.state(), b.state());
    assert_eq!(
        a.state(),
        "{\"lamport\":2,\"ops\":[{\"kind\":\"set\",\"id\":\"r\",\"field\":\"n\",\"value\":2,\"lamport\":2,\"site\":\"a\"}]}"
    );
    assert!(stamp_gt(2, "a", 1, "z"));
    assert!(stamp_gt(1, "b", 1, "a"));
    assert!(!stamp_gt(1, "a", 1, "a"));
}

#[test]
fn a_deleted_row_stays_deleted_for_late_writes() {
    let mut c = Collection::new();
    c.merge(&op("{\"kind\":\"set\",\"id\":\"r\",\"field\":\"n\",\"value\":1,\"lamport\":1,\"site\":\"x\"}"));
    c.merge(&op("{\"kind\":\"del\",\"id\":\"r\",\"lamport\":5,\"site\":\"x\"}"));
    let gone = "{\"lamport\":5,\"ops\":[{\"kind\":\"del\",\"id\":\"r\",\"lamport\":5,\"site\":\"x\"}]}";
    assert_eq!(c.state(), gone);
    c.merge(&op("{\"kind\":\"set\",\"id\":\"r\",\"field\":\"n\",\"value\":9,\"lamport\":3,\"site\":\"y\"}"));
    assert_eq!(c.state(), gone);
    c.merge(&op("{\"kind\":\"set\",\"id\":\"r\",\"field\":\"n\",\"value\":9,\"lamport\":6,\"site\":\"y\"}"));
    assert_eq!(
        c.state(),
        "{\"lamport\":6,\"ops\":[{\"kind\":\"set\",\"id\":\"r\",\"field\":\"n\",\"value\":9,\"lamport\":6,\"site\":\"y\"}]}"
    );
}

#[test]
fn a_sync_request_merges_its_operations() {
    let mut c = Collection::new();
    let req = jparse("{\"ops\":[{\"kind\":\"set\",\"id\":\"b\",\"field\":\"t\",\"value\":\"x\",\"lamport\":1,\"site\":\"s\"},{\"kind\":\"set\",\"id\":\"\",\"field\":\"t\",\"value\":1,\"lamport\":9,\"site\":\"s\"},{\"kind\":\"set\",\"id\":\"a\",\"field\":\"\",\"value\":1,\"lamport\":2,\"site\":\"s\"}]}");
    let out = sync_dispatch(&mut c, &req, &numbers_of(&req), &counts_of(&req));
    assert_eq!(
        out,
        "{\"lamport\":2,\"ops\":[{\"kind\":\"set\",\"id\":\"b\",\"field\":\"t\",\"value\":\"x\",\"lamport\":1,\"site\":\"s\"}]}"
    );
    let empty = jparse("{}");
    assert_eq!(sync_dispatch(&mut c, &empty, &numbers_of(&empty), &counts_of(&empty)), out);
}

#[test]
fn replicas_converge_whatever_the_order() {
    let ops = [
        "{\"kind\":\"set\",\"id\":\"b\",\"field\":\"t\",\"value\":\"x\",\"lamport\":1,\"site\":\"s\"}",
        "{\"kind\":\"set\",\"id\":\"b\",\"field\":\"t\",\"value\":\"y\",\"lamport\":1,\"site\":\"r\"}",
        "{\"kind\":\"del\",\"id\":\"a\",\"lamport\":3,\"site\":\"s\"}",
        "{\"kind\":\"set\",\"id\":\"a\",\"field\":\"u\",\"value\":2,\"lamport\":4,\"site\":\"s\"}",
        "{\"kind\":\"odd\",\"id\":\"c\",\"lamport\":9,\"site\":\"s\"}",
    ];
    let reply = |order: &[usize]| {
        let list: Vec<&str> = order.iter().map(|i| ops[*i]).collect();
        let req = jparse(&format!("{{\"ops\":[{}]}}", list.join(",")));
        let mut c = Collection::new();
        let once = sync_dispatch(&mut c, &req, &numbers_of(&req), &counts_of(&req));
        let again = sync_dispatch(&mut c, &req, &numbers_of(&req), &counts_of(&req));
        assert_eq!(once, again);
        once
    };
    let first = reply(&[0, 1, 2, 3, 4]);
    for order in [[4, 3, 2, 1, 0], [1, 0, 3, 2, 4], [2, 4, 0, 3, 1]] {
        assert_eq!(reply(&order), first);
    }
    assert_eq!(
        first,
        "{\"lamport\":9,\"ops\":[{\"kind\":\"set\",\"id\":\"a\",\"field\":\"u\",\"value\":2,\"lamport\":4,\"site\":\"s\"},{\"kind\":\"set\",\"id\":\"b\",\"field\":\"t\",\"value\":\"x\",\"lamport\":1,\"site\":\"s\"}]}"
    );
}

#[test]
fn headers_and_cookies_are_found() {
    let req = "POST /x HTTP/1.1\r\nHost: h\r\nCookie: a=1; xeres_csrf=tok\r\nX-CSRF-Token:  tok \r\n\r\n";
    assert_eq!(cookie_value(req, "xeres_csrf"), Some(s("tok")));
    assert_eq!(cookie_value(req, "b"), None);
    assert_eq!(header_value(req, "x-csrf-token"), Some(s("tok")));
    assert_eq!(header_value(req, "origin"), None);
    assert_eq!(content_length("A: b\r\nContent-Length: 12\r\n\r\n"), 12);
    assert_eq!(content_length("A: b\r\n\r\n"), 0);
    assert_eq!(content_length("Content-Length: many\r\n\r\n"), 0);
    assert_eq!(find_subseq(&b"abcabc".to_vec(), &b"ca".to_vec()), Some(2));
    assert_eq!(find_subseq(&b"abc".to_vec(), &b"".to_vec()), None);
    assert_eq!(find_subseq(&b"ab".to_vec(), &b"abc".to_vec()), None);
}

#[test]
fn requests_are_framed_by_their_length() {
    let mut buf = b"POST / HTTP/1.1\r\nContent-Length: 2\r\n\r\nhiGET".to_vec();
    let head = buf.len() - 5;
    assert_eq!(frame(&b"GET / HTTP/1.1\r\n".to_vec()), Frame::More);
    assert_eq!(frame(&buf[..head + 1].to_vec()), Frame::More);
    assert_eq!(frame(&vec![b'x'; (1 << 20) + 1]), Frame::Drop);
    assert_eq!(frame(&buf), Frame::Ready(head, head + 2));
    let req = take_request(&mut buf, head, head + 2);
    assert_eq!(req.body, "hi");
    assert_eq!(req.head, "POST / HTTP/1.1\r\nContent-Length: 2\r\n\r\n");
    assert_eq!(buf, b"GET".to_vec());
}

#[test]
fn bytes_that_are_no_text_are_replaced() {
    let mut buf = b"GET / HTTP/1.1\r\n\r\n".to_vec();
    let head = buf.len();
    buf.push(0xff);
    let req = take_request(&mut buf, head, head + 1);
    assert_eq!(req.body, "\u{fffd}");
}

fn request(text: &str) -> Request {
    Request { head: s(text), body: String::new() }
}

#[test]
fn a_forged_call_is_refused() {
    let bare = request("POST /__xeres/pay HTTP/1.1\r\nCookie: xeres_csrf=t\r\n\r\n");
    assert!(matches!(decide(&bare, 1).route, Route::Forbidden));
    let wrong = request("POST /__xeres/pay HTTP/1.1\r\nCookie: xeres_csrf=t\r\nX-CSRF-Token: u\r\n\r\n");
    assert!(matches!(decide(&wrong, 1).route, Route::Forbidden));
    let right = request("POST /__xeres/pay HTTP/1.1\r\nCookie: xeres_csrf=t\r\nX-CSRF-Token: t\r\n\r\n");
    let d = decide(&right, 1);
    assert!(matches!(d.route, Route::Rpc(_)));
    assert!(!d.new_token);
    let mut behind_the_head =
        b"POST /__xeres/pay HTTP/1.1\r\nContent-Length: 42\r\n\r\nCookie: xeres_csrf=t\r\nX-CSRF-Token: t\r\nabc".to_vec();
    match frame(&behind_the_head) {
        Frame::Ready(head, need) => {
            let req = take_request(&mut behind_the_head, head, need);
            assert!(matches!(decide(&req, 1).route, Route::Forbidden));
        }
        other => panic!("expected a request, got {:?}", other),
    }
    let sync = request("POST /__xeres/sync/notes HTTP/1.1\r\n\r\n");
    let d = decide(&sync, 1);
    assert!(matches!(d.route, Route::Sync(c) if c == "notes"));
    assert!(d.new_token);
    let f = forbidden();
    assert_eq!(f.code, 403);
    assert_eq!(f.payload, "{\"error\":\"csrf token missing or invalid\"}");
}

#[test]
fn connections_are_kept_as_asked() {
    assert!(decide(&request("GET / HTTP/1.1\r\n\r\n"), 1).keep);
    assert!(!decide(&request("GET / HTTP/1.1\r\nConnection: close\r\n\r\n"), 1).keep);
    assert!(!decide(&request("GET / HTTP/1.0\r\n\r\n"), 1).keep);
    assert!(decide(&request("GET / HTTP/1.0\r\nConnection: Keep-Alive\r\n\r\n"), 1).keep);
    assert!(!decide(&request("GET / HTTP/1.1\r\n\r\n"), 1024).keep);
    assert!(matches!(dispatch("GET", "/a"), Route::File(p) if p == "/a"));
}

#[test]
fn files_are_served_and_pages_fall_back() {
    let page = static_file("/");
    assert_eq!(page.full, "static/index.html");
    let script = static_file("/app.js");
    assert_eq!(script.full, "static/app.js");
    assert_eq!(script.ctype, "text/javascript");
    assert!(!script.fallback);
    assert_eq!(static_file("/theme.css").ctype, "text/css");
    let route = static_file("/about");
    assert!(route.fallback);
    let r = serve_static(&route, None, Some(s("<html>")));
    assert_eq!((r.code, r.payload.as_str()), (200, "<html>"));
    let missing = serve_static(&script, None, Some(s("<html>")));
    assert_eq!((missing.code, missing.payload.as_str()), (404, "<h1>404 - not found</h1>"));
    let found = serve_static(&script, Some(s("x")), None);
    assert_eq!((found.code, found.ctype, found.payload.as_str()), (200, "text/javascript", "x"));
}

#[test]
fn responses_carry_the_security_headers() {
    let r = response_text(200, "text/html", "é", "", true);
    assert!(r.starts_with("HTTP/1.1 200 OK\r\nContent-Type: text/html\r\nX-Content-Type-Options: nosniff\r\n"));
    assert!(r.contains("frame-ancestors 'none'"));
    assert!(r.ends_with("Content-Length: 2\r\nConnection: keep-alive\r\n\r\né"));
    let moved = response_text(302, "", "/login", "", false);
    assert!(moved.starts_with("HTTP/1.1 302 Found\r\nLocation: /login\r\n"));
    assert!(moved.ends_with("Content-Length: 0\r\nConnection: close\r\n\r\n"));
    assert_eq!(reason(404), "Not Found");
    assert_eq!(rand_token(1, 255), "000000000000000100000000000000ff");
    assert_eq!(token_cookie("t"), "Set-Cookie: xeres_csrf=t; Secure; SameSite=Strict; Path=/\r\n");
}

fn money(t: &str) -> Operand {
    Operand::Text(s(t))
}

#[test]
fn money_is_computed_in_base_ten() {
    assert_eq!(__dec_add(&money("0.1"), &money("0.2")), Some(s("0.3")));
    assert_eq!(__dec_sub(&money("5.00"), &money("1.25")), Some(s("3.75")));
    assert_eq!(__dec_mul(&money("19.99"), &Operand::Int(2)), Some(s("39.98")));
    assert_eq!(__dec_add(&money("79228162514264337593543950335"), &Operand::Int(1)), None);
    assert_eq!(__dec_add(&money("no number"), &money("1.50")), Some(s("1.50")));
    assert!(__dec_lt(&money("9.99"), &money("10.00")));
    assert!(__dec_gt(&money("10.00"), &money("9.99")));
    assert!(__dec_le(&money("0.30"), &money("0.3")));
    assert!(__dec_ge(&money("0.30"), &money("0.3")));
    assert!(!__dec_lt(&money("0.30"), &money("0.3")));
}

#[test]
fn a_transaction_ends_as_its_calls_did() {
    let mut t = Transaction::new();
    assert_eq!(t.tx_end(), None);
    t.tx_begin(true);
    assert_eq!(t.db_exec(Some(3)), 3);
    assert_eq!(t.tx_end(), Some("COMMIT"));
    t.tx_begin(true);
    assert_eq!(t.db_exec(None), 0);
    assert_eq!(t.db_exec(Some(1)), 1);
    assert_eq!(t.tx_end(), Some("ROLLBACK"));
    t.tx_begin(false);
    assert_eq!(t.db_query(Some(vec![1])), Some(vec![1]));
    assert_eq!(t.tx_end(), Some("ROLLBACK"));
    t.tx_begin(true);
    assert_eq!(t.db_query::<i32>(None), Some(vec![]));
    assert_eq!(t.tx_end(), Some("ROLLBACK"));
    assert_eq!(t.db_query::<i32>(None), None);
    assert_eq!(t.db_exec(None), 0);
}

#[test]
fn outbound_requests_keep_their_host() {
    assert_eq!(request_url("https://api.example.com", "/v1"), "https://api.example.com/v1");
    assert_eq!(bearer_header(""), None);
    assert_eq!(bearer_header("k"), Some(s("Bearer k")));
    assert_eq!(http_get(Some(s("body"))), "body");
    assert_eq!(http_get(None), "");
    assert_eq!(http_post(Some(201)), 201);
    assert_eq!(http_post(None), 0);
}

#[test]
fn settings_are_read_line_by_line() {
    let got = load_env("# comment\n\nA=1\n B = \"two words\" \nC='x'\nnothing\nD=a=b\n");
    assert_eq!(
        got,
        vec![
            (s("A"), s("1")),
            (s("B"), s("two words")),
            (s("C"), s("'x'")),
            (s("D"), s("a=b")),
        ]
    );
}

fn screen(name: &str, is_component: bool) -> ScreenNode {
    ScreenNode {
        name: s(name),
        params: vec![],
        states: vec![],
        load: vec![],
        body: vec![],
        is_component,
        is_auth: false,
        route: None,
        line: 1,
        module: String::new(),
    }
}

#[test]
fn a_build_is_summed_up() {
    let mut p = empty_program();
    p.screens.push(screen("Home", false));
    p.screens.push(screen("Card", true));
    p.functions.push(FunctionNode {
        env: EnvModifier::Server,
        is_auth: false,
        is_pub: false,
        name: s("f"),
        params: vec![],
        return_type: None,
        body: vec![],
        line: 1,
        module: String::new(),
    });
    assert_eq!(screen_component_counts(&p), (1, 1));
    assert_eq!(
        build_summary("app.xrs", &p),
        "xeres: compiled app.xrs -> out/server/ (0 model(s), 1 fn(s), 1 screen(s), 1 component(s))"
    );
    p.enums.push(EnumNode {
        name: s("E"),
        variants: vec![s("A")],
        line: 1,
        module: String::new(),
    });
    assert_eq!(
        build_summary("app.xrs", &p),
        "xeres: compiled app.xrs -> out/server/ (0 model(s), 1 enum(s), 1 fn(s), 1 screen(s), 1 component(s))"
    );
    assert_eq!(
        serve_summary("app.xrs", &p),
        "xeres: serving app.xrs (1 fn(s), 1 screen(s), 1 component(s))"
    );
    assert_eq!(abort_summary(1), "\nxeres: 1 error - compilation aborted.");
    assert_eq!(abort_summary(2), "\nxeres: 2 errors - compilation aborted.");
}

#[test]
fn the_source_is_the_first_file_among_the_arguments() {
    let mut args = Parts::new();
    args.push(s("xeres.xrs"));
    args.push(s("build"));
    assert_eq!(find_source(&args), None);
    args.push(s("app.xer"));
    args.push(s("other.xrs"));
    assert_eq!(find_source(&args), Some(s("app.xer")));
}

fn api_route(method: &str, path: &str) -> ApiRoute {
    ApiRoute {
        method: s(method),
        path: s(path),
        body: None,
        return_type: None,
        body_stmts: vec![],
        line: 1,
    }
}

fn named_function(name: &str, env: EnvModifier) -> FunctionNode {
    FunctionNode {
        env,
        is_auth: false,
        is_pub: false,
        name: s(name),
        params: vec![],
        return_type: None,
        body: vec![],
        line: 1,
        module: String::new(),
    }
}

#[test]
fn a_call_goes_to_the_server_function_of_its_path() {
    let mut p = empty_program();
    p.functions = vec![
        named_function("shown", EnvModifier::Ui),
        named_function("add", EnvModifier::Server),
    ];
    assert_eq!(find_rpc(&p, "/__xeres/add"), Some(1));
    assert_eq!(find_rpc(&p, "/__xeres/shown"), None);
    assert_eq!(find_rpc(&p, "/__xeres/__xeres/add"), None);
    assert_eq!(find_rpc(&p, "/add"), None);
}

#[test]
fn a_request_goes_to_a_route_the_front_page_or_a_file() {
    let mut p = empty_program();
    p.apis = vec![
        ApiNode { base: s("/v1"), routes: vec![api_route("GET", "/a")], line: 1, module: String::new() },
        ApiNode {
            base: s("/v2"),
            routes: vec![api_route("GET", "/a"), api_route("POST", "/a")],
            line: 2,
            module: String::new(),
        },
    ];
    p.screens = vec![screen("Home", false), screen("Vault", false)];
    p.screens[1].is_auth = true;
    assert_eq!(target(&p, "GET", "/v1/a", false), Target::Route(0, 0));
    assert_eq!(target(&p, "POST", "/v2/a", false), Target::Route(1, 1));
    assert_eq!(target(&p, "POST", "/v1/a", false), Target::NotFound);
    assert_eq!(target(&p, "GET", "/v2/none", true), Target::NotFound);
    assert_eq!(target(&p, "GET", "/vault", false), Target::FrontPage);
    assert_eq!(target(&p, "GET", "/vault", true), Target::File);
    assert_eq!(target(&p, "POST", "/vault", false), Target::File);
    assert_eq!(target(&p, "GET", "/", false), Target::File);
    assert_eq!(target(&p, "GET", "/app.css", false), Target::File);
    assert!(is_protected_path(&p.screens, "/vault"));
    assert!(!is_protected_path(&p.screens, "/"));
}
