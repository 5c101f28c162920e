//! The fixed texts that generated code is assembled from.
use vstd::prelude::*;

verus! {

/// The security headers of every response, of a generated server and of the live host alike.
pub const SECURITY_HEADERS: &'static str = "X-Content-Type-Options: nosniff\r\nReferrer-Policy: no-referrer\r\nX-Frame-Options: DENY\r\nStrict-Transport-Security: max-age=63072000; includeSubDomains\r\nContent-Security-Policy: default-src 'self'; script-src 'self'; style-src 'self' 'unsafe-inline'; img-src 'self' data:; object-src 'none'; base-uri 'none'; frame-ancestors 'none'\r\n";

/// The head of every generated server: HTTP imports, JSON, and the builtins.
pub const SERVER_HEAD: &'static str = r#"use std::io::{ErrorKind, Read, Write};
use std::net::TcpListener;
use std::time::Duration;

// Keep-alive: idle read timeout that reaps a persistent connection holding a
// thread, plus a per-connection request cap that recycles resources.
const KEEPALIVE_IDLE: Duration = Duration::from_secs(15);
const MAX_REQUESTS_PER_CONN: u32 = 1024;

/// `.length()` on a String or List lowers to `.x_len()` so codegen needs no type
/// info at the call site: both `str` (char count) and `[T]` (element count)
/// implement it, and String/Vec reach them by auto-deref.
trait XLen { fn x_len(&self) -> i64; }
impl XLen for str { fn x_len(&self) -> i64 { self.chars().count() as i64 } }
impl<T> XLen for [T] { fn x_len(&self) -> i64 { self.len() as i64 } }

/// Minimal JSON string escaping (spike-grade).
fn json_str(s: &str) -> String {
    let mut out = String::from("\"");
    for c in s.chars() {
        match c {
            '"' => out.push_str("\\\""),
            '\\' => out.push_str("\\\\"),
            '\n' => out.push_str("\\n"),
            '\t' => out.push_str("\\t"),
            '\r' => out.push_str("\\r"),
            _ => out.push(c),
        }
    }
    out.push('"');
    out
}

/// The `uid()` builtin, server side (std-only). Matches the client and
/// interpreter: a hex of the wall-clock nanos. Used e.g. to mint a row id on a
/// `db.exec` insert.
fn uid() -> String {
    use std::time::{SystemTime, UNIX_EPOCH};
    let n = SystemTime::now().duration_since(UNIX_EPOCH).map(|d| d.as_nanos()).unwrap_or(0);
    format!("{:x}", n)
}

/// The `now()` builtin, server side: epoch milliseconds (matches `Date.now()`).
fn now() -> i64 {
    use std::time::{SystemTime, UNIX_EPOCH};
    SystemTime::now().duration_since(UNIX_EPOCH).map(|d| d.as_millis() as i64).unwrap_or(0)
}

/// A JSON value + a recursive-descent parser (std-only). Shared by the RPC
/// router (to decode args, including model objects) and the sync endpoint.
enum J { Null, Bool(bool), Num(f64), Str(String), Arr(Vec<J>), Obj(Vec<(String, J)>) }
impl J {
    fn get(&self, k: &str) -> Option<&J> {
        if let J::Obj(v) = self { v.iter().find(|(kk, _)| kk == k).map(|(_, vv)| vv) } else { None }
    }
    fn idx(&self, i: usize) -> Option<&J> {
        if let J::Arr(v) = self { v.get(i) } else { None }
    }
    fn as_str(&self) -> Option<&str> { if let J::Str(s) = self { Some(s) } else { None } }
    fn as_f64(&self) -> Option<f64> { if let J::Num(n) = self { Some(*n) } else { None } }
    fn as_string(&self) -> String { self.as_str().unwrap_or("").to_string() }
    fn as_i64(&self) -> i64 { self.as_f64().unwrap_or(0.0) as i64 }
    fn as_bool(&self) -> bool { if let J::Bool(b) = self { *b } else { false } }
    fn to_json(&self) -> String {
        match self {
            J::Null => String::from("null"),
            J::Bool(b) => b.to_string(),
            J::Num(n) => if n.fract() == 0.0 { (*n as i64).to_string() } else { n.to_string() },
            J::Str(s) => json_str(s),
            J::Arr(a) => format!("[{}]", a.iter().map(|x| x.to_json()).collect::<Vec<_>>().join(",")),
            J::Obj(o) => format!("{{{}}}", o.iter().map(|(k, v)| format!("{}:{}", json_str(k), v.to_json())).collect::<Vec<_>>().join(",")),
        }
    }
}

fn jws(b: &[char], i: &mut usize) { while *i < b.len() && b[*i].is_whitespace() { *i += 1; } }
fn jstr(b: &[char], i: &mut usize) -> String {
    if *i < b.len() && b[*i] == '"' { *i += 1; }
    let mut s = String::new();
    while *i < b.len() && b[*i] != '"' {
        if b[*i] == '\\' && *i + 1 < b.len() {
            *i += 1;
            match b[*i] { 'n' => s.push('\n'), 't' => s.push('\t'), 'r' => s.push('\r'), c => s.push(c) }
        } else { s.push(b[*i]); }
        *i += 1;
    }
    if *i < b.len() { *i += 1; }
    s
}
fn jval(b: &[char], i: &mut usize) -> J {
    jws(b, i);
    if *i >= b.len() { return J::Null; }
    match b[*i] {
        '{' => {
            *i += 1;
            let mut o = Vec::new();
            loop {
                jws(b, i);
                if *i >= b.len() || b[*i] == '}' { if *i < b.len() { *i += 1; } break; }
                let k = jstr(b, i);
                jws(b, i);
                if *i < b.len() && b[*i] == ':' { *i += 1; }
                o.push((k, jval(b, i)));
                jws(b, i);
                if *i < b.len() && b[*i] == ',' { *i += 1; }
            }
            J::Obj(o)
        }
        '[' => {
            *i += 1;
            let mut a = Vec::new();
            loop {
                jws(b, i);
                if *i >= b.len() || b[*i] == ']' { if *i < b.len() { *i += 1; } break; }
                a.push(jval(b, i));
                jws(b, i);
                if *i < b.len() && b[*i] == ',' { *i += 1; }
            }
            J::Arr(a)
        }
        '"' => J::Str(jstr(b, i)),
        't' => { *i += 4; J::Bool(true) }
        'f' => { *i += 5; J::Bool(false) }
        'n' => { *i += 4; J::Null }
        _ => {
            let st = *i;
            while *i < b.len() && (b[*i].is_ascii_digit() || b[*i] == '-' || b[*i] == '+' || b[*i] == '.' || b[*i] == 'e' || b[*i] == 'E') { *i += 1; }
            if *i == st { *i += 1; return J::Null; }
            let s: String = b[st..*i].iter().collect();
            J::Num(s.parse().unwrap_or(0.0))
        }
    }
}
fn jparse(s: &str) -> J { let b: Vec<char> = s.chars().collect(); let mut i = 0; jval(&b, &mut i) }
"#;

/// The request loop of every generated server, with the places that a program fills in.
pub const SERVER_MAIN: &'static str = r#"fn reason(code: u16) -> &'static str {
    match code { 200 => "OK", 302 => "Found", 403 => "Forbidden", 404 => "Not Found", 501 => "Not Implemented", _ => "OK" }
}

fn serve_static(path: &str) -> (u16, &'static str, String) {
    let rel = if path == "/" { "index.html" } else { path.trim_start_matches('/') };
    let full = format!("static/{}", rel);
    let ctype = if full.ends_with(".js") { "text/javascript" }
        else if full.ends_with(".css") { "text/css" }
        else { "text/html; charset=utf-8" };
    match std::fs::read_to_string(&full) {
        Ok(c) => (200, ctype, c),
        // SPA fallback (P2 router): an extension-less path is a client route, not
        // a real file — serve index.html so a deep link / reload boots the app and
        // the router resolves the URL. Missing assets (with a `.`) stay a 404.
        Err(_) if !rel.contains('.') => match std::fs::read_to_string("static/index.html") {
            Ok(c) => (200, "text/html; charset=utf-8", c),
            Err(_) => (404, "text/html", String::from("<h1>404 - not found</h1>")),
        },
        Err(_) => (404, "text/html", String::from("<h1>404 - not found</h1>")),
    }
}

fn dispatch(method: &str, path: &str, body: &str) -> (u16, &'static str, String) {
    if method == "POST" && path.starts_with("/__xeres/sync/") {
        let coll = &path["/__xeres/sync/".len()..];
        return (200, "application/json", sync_dispatch(coll, body));
    }
    if method == "POST" && path.starts_with("/__xeres/") {
        return match route(path, body) {
            Some((code, json)) => (code, "application/json", json),
            None => (404, "application/json", String::from("{\"error\":\"no such rpc\"}")),
        };
    }
    //__XERES_API__
    //__XERES_GUARD__
    serve_static(path)
}

fn cookie_value(req: &str, name: &str) -> Option<String> {
    for line in req.lines() {
        if line.get(..7).map_or(false, |p| p.eq_ignore_ascii_case("cookie:")) {
            for pair in line[7..].split(';') {
                if let Some(v) = pair.trim().strip_prefix(&format!("{}=", name)) { return Some(v.to_string()); }
            }
        }
    }
    None
}

fn header_value(req: &str, name: &str) -> Option<String> {
    let key = format!("{}:", name);
    for line in req.lines() {
        if line.get(..key.len()).map_or(false, |p| p.eq_ignore_ascii_case(&key)) {
            return Some(line[key.len()..].trim().to_string());
        }
    }
    None
}

fn rand_token() -> String {
    use std::hash::{BuildHasher, Hasher};
    let mk = || std::collections::hash_map::RandomState::new().build_hasher().finish();
    format!("{:016x}{:016x}", mk(), mk())
}

// Default S1/S2 security headers, always emitted. HSTS is honored once TLS is
// terminated in front; no Access-Control-Allow-Origin (the app is same-origin).
//__XERES_SECURITY_HEADERS__

// First occurrence of `needle` in `hay` (finds the \r\n\r\n header terminator).
fn find_subseq(hay: &[u8], needle: &[u8]) -> Option<usize> {
    if needle.is_empty() || hay.len() < needle.len() { return None; }
    hay.windows(needle.len()).position(|w| w == needle)
}
// Parse Content-Length from a request head (0 if absent/invalid).
fn content_length(head: &str) -> usize {
    for line in head.lines() {
        if line.get(..15).map_or(false, |p| p.eq_ignore_ascii_case("content-length:")) {
            return line[15..].trim().parse().unwrap_or(0);
        }
    }
    0
}
// A read that timed out (idle keep-alive connection) vs a real I/O error.
fn is_idle(e: &std::io::Error) -> bool { matches!(e.kind(), ErrorKind::WouldBlock | ErrorKind::TimedOut) }

fn write_response<S: Write>(stream: &mut S, code: u16, ctype: &str, payload: &str, cookies: &str, keep: bool) -> std::io::Result<()> {
    let conn = if keep { "keep-alive" } else { "close" };
    if code == 302 {
        let resp = format!("HTTP/1.1 302 Found\r\nLocation: {}\r\n{}{}Content-Length: 0\r\nConnection: {}\r\n\r\n", payload, SECURITY_HEADERS, cookies, conn);
        stream.write_all(resp.as_bytes())?;
        return stream.flush();
    }
    let resp = format!(
        "HTTP/1.1 {} {}\r\nContent-Type: {}\r\n{}{}Content-Length: {}\r\nConnection: {}\r\n\r\n{}",
        code, reason(code), ctype, SECURITY_HEADERS, cookies, payload.as_bytes().len(), conn, payload
    );
    stream.write_all(resp.as_bytes())?;
    stream.flush()
}

// Keep-alive: a request/response loop reusing the socket until the client opts
// out, an idle read times out (reaping the thread), or the per-connection cap is
// hit. HTTP/1.1 framing: full headers, then exactly Content-Length body bytes;
// any pipelined remainder stays buffered for the next iteration.
fn handle_conn<S: Read + Write>(stream: &mut S) -> std::io::Result<()> {
    let mut buf: Vec<u8> = Vec::with_capacity(8192);
    let mut tmp = [0u8; 16384];
    let mut served: u32 = 0;
    loop {
        let head_end = loop {
            if let Some(pos) = find_subseq(&buf, b"\r\n\r\n") { break pos + 4; }
            if buf.len() > 1 << 20 { return Ok(()); }
            match stream.read(&mut tmp) {
                Ok(0) => return Ok(()),
                Ok(n) => buf.extend_from_slice(&tmp[..n]),
                Err(e) if is_idle(&e) => return Ok(()),
                Err(e) => return Err(e),
            }
        };
        let need = { let head = String::from_utf8_lossy(&buf[..head_end]); head_end + content_length(&head) };
        while buf.len() < need {
            match stream.read(&mut tmp) {
                Ok(0) => return Ok(()),
                Ok(n) => buf.extend_from_slice(&tmp[..n]),
                Err(e) if is_idle(&e) => return Ok(()),
                Err(e) => return Err(e),
            }
        }
        let req_bytes: Vec<u8> = buf.drain(..need).collect();
        let req = String::from_utf8_lossy(&req_bytes[..head_end]);
        let body = String::from_utf8_lossy(&req_bytes[head_end..]);
        let first = req.lines().next().unwrap_or("");
        let mut parts = first.split_whitespace();
        let method = parts.next().unwrap_or("");
        let path = parts.next().unwrap_or("/");
        let version = parts.next().unwrap_or("HTTP/1.1");
        served += 1;
        let conn_hdr = header_value(&req, "connection").unwrap_or_default().to_ascii_lowercase();
        let client_keep = if version.eq_ignore_ascii_case("HTTP/1.0") { conn_hdr.contains("keep-alive") } else { !conn_hdr.contains("close") };
        let keep = client_keep && served < MAX_REQUESTS_PER_CONN;
        let csrf_cookie = cookie_value(&req, "xeres_csrf");
        // Default S1 CSRF: a state-changing RPC fn call must echo the double-submit
        // token (xeres_csrf cookie value resent as X-CSRF-Token). Sync is exempt.
        if method == "POST" && path.starts_with("/__xeres/") && !path.starts_with("/__xeres/sync/") {
            let header = header_value(&req, "x-csrf-token");
            let ok = matches!((&csrf_cookie, &header), (Some(c), Some(h)) if !c.is_empty() && c == h);
            if !ok {
                write_response(stream, 403, "application/json", "{\"error\":\"csrf token missing or invalid\"}", "", keep)?;
                if keep { continue; } else { return Ok(()); }
            }
        }
    //__XERES_RECOVER__
        let (code, ctype, payload) = dispatch(method, path, &body);
        let mut cookies = String::new();
    //__XERES_SETCOOKIE__
        if csrf_cookie.is_none() {
            cookies.push_str(&format!("Set-Cookie: xeres_csrf={}; Secure; SameSite=Strict; Path=/\r\n", rand_token()));
        }
        write_response(stream, code, ctype, &payload, &cookies, keep)?;
        if !keep { return Ok(()); }
    }
}

// Plain-HTTP accept loop (the default). One thread per connection so an idle or
// slow socket can't block accept.
fn serve_plain(listener: TcpListener, addr: &str) {
    println!("xeres app serving http://{}", addr);
    for stream in listener.incoming() {
        if let Ok(mut s) = stream {
            let _ = s.set_read_timeout(Some(KEEPALIVE_IDLE));
            std::thread::spawn(move || { let _ = handle_conn(&mut s); });
        }
    }
}

// Build a rustls ServerConfig from PEM cert-chain + key files (startup-only;
// panics loud on a bad cert so it fails before the accept loop).
#[cfg(feature = "tls")]
fn load_tls(cert: &str, key: &str) -> rustls::ServerConfig {
    use rustls::pki_types::{CertificateDer, PrivateKeyDer};
    let cert_file = std::fs::File::open(cert).unwrap_or_else(|e| panic!("xeres: cannot open TLS_CERT {} ({})", cert, e));
    let certs: Vec<CertificateDer<'static>> = rustls_pemfile::certs(&mut std::io::BufReader::new(cert_file))
        .collect::<Result<_, _>>().expect("xeres: cannot parse TLS_CERT PEM");
    let key_file = std::fs::File::open(key).unwrap_or_else(|e| panic!("xeres: cannot open TLS_KEY {} ({})", key, e));
    let key: PrivateKeyDer<'static> = rustls_pemfile::private_key(&mut std::io::BufReader::new(key_file))
        .expect("xeres: cannot read TLS_KEY PEM").expect("xeres: no private key in TLS_KEY");
    rustls::ServerConfig::builder().with_no_client_auth().with_single_cert(certs, key)
        .expect("xeres: invalid certificate/key pair")
}

// With `tls` on and TLS_CERT/TLS_KEY set, terminate HTTPS directly: each accepted
// TcpStream is wrapped in a rustls stream and handed to the same generic
// handle_conn. Otherwise (or unset env) fall back to plain HTTP.
#[cfg(feature = "tls")]
fn serve_loop(listener: TcpListener, addr: &str) {
    if let (Ok(cert), Ok(key)) = (std::env::var("TLS_CERT"), std::env::var("TLS_KEY")) {
        let config = std::sync::Arc::new(load_tls(&cert, &key));
        println!("xeres app serving https://{}", addr);
        for stream in listener.incoming() {
            if let Ok(s) = stream {
                let _ = s.set_read_timeout(Some(KEEPALIVE_IDLE));
                let config = config.clone();
                std::thread::spawn(move || {
                    if let Ok(conn) = rustls::ServerConnection::new(config) {
                        let mut tls = rustls::StreamOwned::new(conn, s);
                        let _ = handle_conn(&mut tls);
                    }
                });
            }
        }
        return;
    }
    serve_plain(listener, addr);
}

#[cfg(not(feature = "tls"))]
fn serve_loop(listener: TcpListener, addr: &str) {
    serve_plain(listener, addr);
}

fn main() {
    let addr = "127.0.0.1:8080";
    let listener = TcpListener::bind(addr).expect("xeres: cannot bind 127.0.0.1:8080");
    serve_loop(listener, addr);
}
"#;

/// The sync endpoint of a generated server: a field-level last-write-wins store.
pub const SYNC_SERVER: &'static str = r#"use std::sync::{Mutex, OnceLock};

struct Cell { value: String, lamport: u64, site: String }
struct Row { fields: std::collections::HashMap<String, Cell>, tomb: Option<(u64, String)> }
struct CollState { rows: std::collections::HashMap<String, Row>, lamport: u64 }

fn stamp_gt(al: u64, asite: &str, bl: u64, bsite: &str) -> bool {
    al > bl || (al == bl && asite > bsite)
}

fn sync_store() -> &'static Mutex<std::collections::HashMap<String, CollState>> {
    static S: OnceLock<Mutex<std::collections::HashMap<String, CollState>>> = OnceLock::new();
    S.get_or_init(|| Mutex::new(std::collections::HashMap::new()))
}

fn sync_dispatch(coll: &str, body: &str) -> String {
    let req = jparse(body);
    let mut guard = sync_store().lock().unwrap();
    let cs = guard.entry(coll.to_string()).or_insert_with(|| CollState { rows: std::collections::HashMap::new(), lamport: 0 });
    if let Some(J::Arr(ops)) = req.get("ops") {
        for op in ops {
            let kind = op.get("kind").and_then(|j| j.as_str()).unwrap_or("");
            let id = op.get("id").and_then(|j| j.as_str()).unwrap_or("").to_string();
            if id.is_empty() { continue; }
            let lam = op.get("lamport").and_then(|j| j.as_f64()).unwrap_or(0.0) as u64;
            let site = op.get("site").and_then(|j| j.as_str()).unwrap_or("").to_string();
            if lam > cs.lamport { cs.lamport = lam; }
            let row = cs.rows.entry(id).or_insert_with(|| Row { fields: std::collections::HashMap::new(), tomb: None });
            if kind == "set" {
                let field = op.get("field").and_then(|j| j.as_str()).unwrap_or("").to_string();
                if field.is_empty() { continue; }
                let value = op.get("value").map(|j| j.to_json()).unwrap_or_else(|| String::from("null"));
                let win = match row.fields.get(&field) { None => true, Some(c) => stamp_gt(lam, &site, c.lamport, &c.site) };
                if win { row.fields.insert(field, Cell { value, lamport: lam, site }); }
            } else if kind == "del" {
                let win = match &row.tomb { None => true, Some((l, s)) => stamp_gt(lam, &site, *l, s) };
                if win { row.tomb = Some((lam, site)); }
            }
        }
    }
    let mut out: Vec<String> = Vec::new();
    for (id, row) in cs.rows.iter() {
        let alive = match &row.tomb {
            None => !row.fields.is_empty(),
            Some((tl, ts)) => row.fields.values().any(|c| stamp_gt(c.lamport, &c.site, *tl, ts)),
        };
        if alive {
            for (f, c) in row.fields.iter() {
                out.push(format!("{{\"kind\":\"set\",\"id\":{},\"field\":{},\"value\":{},\"lamport\":{},\"site\":{}}}", json_str(id), json_str(f), c.value, c.lamport, json_str(&c.site)));
            }
        } else if let Some((tl, ts)) = &row.tomb {
            out.push(format!("{{\"kind\":\"del\",\"id\":{},\"lamport\":{},\"site\":{}}}", json_str(id), tl, json_str(ts)));
        }
    }
    out.sort();
    format!("{{\"lamport\":{},\"ops\":[{}]}}", cs.lamport, out.join(","))
}
"#;

/// `hash` and `verify` on a generated server.
pub const CRYPTO_PRELUDE: &'static str = r#"use argon2::{Argon2, PasswordHasher, PasswordVerifier};
use argon2::password_hash::{SaltString, PasswordHash, rand_core::OsRng};

/// hash() — derive a salted Argon2id password hash (a self-describing PHC string).
fn hash(s: String) -> String {
    let salt = SaltString::generate(&mut OsRng);
    Argon2::default()
        .hash_password(s.as_bytes(), &salt)
        .expect("xeres: password hashing failed")
        .to_string()
}
/// verify() — check a password against a stored PHC hash (false on any mismatch).
fn verify(password: String, stored: String) -> bool {
    match PasswordHash::new(&stored) {
        Ok(parsed) => Argon2::default()
            .verify_password(password.as_bytes(), &parsed)
            .is_ok(),
        Err(_) => false,
    }
}
"#;

/// The signed session cookie on a generated server.
pub const SESSION_PRELUDE: &'static str = r#"thread_local! {
    static SESSION_ACTOR: std::cell::RefCell<Option<String>> = std::cell::RefCell::new(None);
    static SESSION_SET_COOKIE: std::cell::RefCell<Option<String>> = std::cell::RefCell::new(None);
}
/// Set the actor recovered from a verified cookie for this request (or None).
fn session_set_actor(a: Option<String>) { SESSION_ACTOR.with(|s| *s.borrow_mut() = a); }
/// `session.actor` — the authenticated actor id for this request, or None.
fn session_actor() -> Option<String> { SESSION_ACTOR.with(|s| s.borrow().clone()) }
/// Take the Set-Cookie recorded by `session.login`/`logout` during this call.
fn session_take_cookie() -> Option<String> { SESSION_SET_COOKIE.with(|c| c.borrow_mut().take()) }
/// `session.login(id)` — mint a signed cookie; the server emits it after the call.
fn session_login(id: &str) { let c = session_set_cookie(id); SESSION_SET_COOKIE.with(|s| *s.borrow_mut() = Some(c)); }
/// `session.logout()` — clear the cookie (Max-Age=0).
fn session_logout() { let c = session_clear_cookie(); SESSION_SET_COOKIE.with(|s| *s.borrow_mut() = Some(c)); }

#[cfg(feature = "auth")]
fn session_verify(raw: &str) -> Option<String> {
    let (id, sig) = raw.rsplit_once('.')?;
    let expected = session_sign(id);
    let expected_sig = expected.rsplit_once('.')?.1.to_string();
    if session_constant_eq(expected_sig.as_bytes(), sig.as_bytes()) { Some(id.to_string()) } else { None }
}
#[cfg(feature = "auth")]
fn session_sign(id: &str) -> String {
    use hmac::{Hmac, Mac};
    use sha2::digest::KeyInit;
    use sha2::Sha256;
    let mut mac = <Hmac<Sha256> as KeyInit>::new_from_slice(&session_secret())
        .expect("HMAC accepts a key of any length");
    mac.update(id.as_bytes());
    format!("{}.{}", id, session_hex(&mac.finalize().into_bytes()))
}
#[cfg(feature = "auth")]
fn session_secret() -> Vec<u8> {
    std::env::var("SESSION_SECRET").map(String::into_bytes).unwrap_or_else(|_| {
        eprintln!("xeres: SESSION_SECRET not set — using an insecure dev key. Set it in .env for production.");
        b"xeres-insecure-dev-session-key".to_vec()
    })
}
#[cfg(feature = "auth")]
fn session_set_cookie(id: &str) -> String {
    // Signed HttpOnly session + a readable `xeres_auth` flag the client router uses
    // to redirect unauthenticated users off `auth` routes (R31). The flag is not a
    // secret: forging it reveals only an empty shell — data needs the real session.
    format!(
        "xeres_session={}; HttpOnly; Secure; SameSite=Strict; Path=/\r\nSet-Cookie: xeres_auth=1; Secure; SameSite=Strict; Path=/",
        session_sign(id)
    )
}
#[cfg(feature = "auth")]
fn session_clear_cookie() -> String {
    "xeres_session=; HttpOnly; Secure; SameSite=Strict; Path=/; Max-Age=0\r\nSet-Cookie: xeres_auth=; Secure; SameSite=Strict; Path=/; Max-Age=0".to_string()
}
#[cfg(feature = "auth")]
fn session_hex(bytes: &[u8]) -> String {
    let mut s = String::with_capacity(bytes.len() * 2);
    for b in bytes { s.push_str(&format!("{:02x}", b)); }
    s
}
#[cfg(feature = "auth")]
fn session_constant_eq(a: &[u8], b: &[u8]) -> bool {
    if a.len() != b.len() { return false; }
    let mut diff = 0u8;
    for (x, y) in a.iter().zip(b) { diff |= x ^ y; }
    diff == 0
}

// Non-auth builds: no HMAC, so no real session (released binaries enable it).
#[cfg(not(feature = "auth"))]
fn session_verify(_raw: &str) -> Option<String> { None }
#[cfg(not(feature = "auth"))]
fn session_set_cookie(_id: &str) -> String { String::new() }
#[cfg(not(feature = "auth"))]
fn session_clear_cookie() -> String { String::new() }
"#;

/// Outbound calls to declared endpoints on a generated server.
pub const HTTP_PRELUDE: &'static str = r#"// Egress (R26): outbound HTTP only to a declared endpoint's fixed host.
fn http_get(base: &str, path: &str, bearer: &str) -> String {
    let url = format!("{}{}", base, path);
    let mut req = ureq::get(&url);
    if !bearer.is_empty() { req = req.set("Authorization", &format!("Bearer {}", bearer)); }
    req.call().ok().and_then(|r| r.into_string().ok()).unwrap_or_default()
}
fn http_post(base: &str, path: &str, body: &str, bearer: &str) -> i64 {
    let url = format!("{}{}", base, path);
    let mut req = ureq::post(&url);
    if !bearer.is_empty() { req = req.set("Authorization", &format!("Bearer {}", bearer)); }
    match req.send_string(body) {
        Ok(r) => r.status() as i64,
        Err(ureq::Error::Status(code, _)) => code as i64,
        Err(_) => 0,
    }
}
"#;

/// Postgres access and transactions on a generated server.
pub const DB_PRELUDE: &'static str = r#"use postgres::types::ToSql;

fn db_client() -> postgres::Client {
    let url = std::env::var("DATABASE_URL").expect("xeres: DATABASE_URL is not set");
    // TLS-capable connector: hosted Postgres (Supabase/Neon/RDS) requires SSL.
    // Honors sslmode in DATABASE_URL (e.g. ?sslmode=require / disable).
    let tls = postgres_native_tls::MakeTlsConnector::new(
        native_tls::TlsConnector::new().expect("xeres: TLS init failed"),
    );
    postgres::Client::connect(&url, tls).expect("xeres: database connection failed")
}
// R33 transactions: a `transaction { … }` block holds one shared connection in
// this thread-local for its duration (BEGIN..COMMIT/ROLLBACK). While it's set,
// db_exec/db_query run on it (so they're part of the transaction) and flip the
// `failed` flag on any error, so tx_end rolls back. Outside a transaction each
// call opens its own connection, as before. Thread-per-connection + Connection:
// close means the slot never crosses requests.
thread_local! { static TX: std::cell::RefCell<Option<(postgres::Client, bool)>> = std::cell::RefCell::new(None); }
fn tx_begin() {
    let mut c = db_client();
    let failed = c.batch_execute("BEGIN").is_err();
    TX.with(|t| *t.borrow_mut() = Some((c, failed)));
}
fn tx_end() {
    TX.with(|t| {
        if let Some((mut c, failed)) = t.borrow_mut().take() {
            let _ = c.batch_execute(if failed { "ROLLBACK" } else { "COMMIT" });
        }
    });
}
fn db_exec(sql: &str, params: &[&(dyn ToSql + Sync)]) -> i64 {
    TX.with(|t| {
        let mut b = t.borrow_mut();
        if let Some((c, failed)) = b.as_mut() {
            match c.execute(sql, params) {
                Ok(n) => n as i64,
                Err(_) => { *failed = true; 0 }
            }
        } else {
            drop(b);
            db_client().execute(sql, params).map(|n| n as i64).unwrap_or(0)
        }
    })
}
fn db_query(sql: &str, params: &[&(dyn ToSql + Sync)]) -> Vec<postgres::Row> {
    TX.with(|t| {
        let mut b = t.borrow_mut();
        if let Some((c, failed)) = b.as_mut() {
            match c.query(sql, params) {
                Ok(r) => r,
                Err(_) => { *failed = true; Vec::new() }
            }
        } else {
            drop(b);
            db_client().query(sql, params).expect("xeres: database query failed")
        }
    })
}
"#;

/// Exact Decimal arithmetic on a generated server.
pub const DECIMAL_PRELUDE: &'static str = r#"#[cfg(feature = "decimal")]
use rust_decimal::Decimal;
#[cfg(feature = "decimal")]
trait IntoDec { fn into_dec(&self) -> Decimal; }
#[cfg(feature = "decimal")]
impl IntoDec for str { fn into_dec(&self) -> Decimal { std::str::FromStr::from_str(self).unwrap_or_default() } }
#[cfg(feature = "decimal")]
impl IntoDec for String { fn into_dec(&self) -> Decimal { std::str::FromStr::from_str(self.as_str()).unwrap_or_default() } }
#[cfg(feature = "decimal")]
impl IntoDec for i64 { fn into_dec(&self) -> Decimal { Decimal::from(*self) } }
#[cfg(feature = "decimal")]
impl IntoDec for i32 { fn into_dec(&self) -> Decimal { Decimal::from(*self) } }
#[cfg(feature = "decimal")]
fn __dec_add<A: IntoDec + ?Sized, B: IntoDec + ?Sized>(a: &A, b: &B) -> String { (a.into_dec() + b.into_dec()).to_string() }
#[cfg(feature = "decimal")]
fn __dec_sub<A: IntoDec + ?Sized, B: IntoDec + ?Sized>(a: &A, b: &B) -> String { (a.into_dec() - b.into_dec()).to_string() }
#[cfg(feature = "decimal")]
fn __dec_mul<A: IntoDec + ?Sized, B: IntoDec + ?Sized>(a: &A, b: &B) -> String { (a.into_dec() * b.into_dec()).to_string() }
#[cfg(feature = "decimal")]
fn __dec_lt<A: IntoDec + ?Sized, B: IntoDec + ?Sized>(a: &A, b: &B) -> bool { a.into_dec() < b.into_dec() }
#[cfg(feature = "decimal")]
fn __dec_gt<A: IntoDec + ?Sized, B: IntoDec + ?Sized>(a: &A, b: &B) -> bool { a.into_dec() > b.into_dec() }
#[cfg(feature = "decimal")]
fn __dec_le<A: IntoDec + ?Sized, B: IntoDec + ?Sized>(a: &A, b: &B) -> bool { a.into_dec() <= b.into_dec() }
#[cfg(feature = "decimal")]
fn __dec_ge<A: IntoDec + ?Sized, B: IntoDec + ?Sized>(a: &A, b: &B) -> bool { a.into_dec() >= b.into_dec() }
"#;

/// The `uid` builtin in the browser.
pub const UID_FN: &'static str = r#"function uid(): string {
  return (typeof crypto !== "undefined" && crypto.randomUUID)
    ? crypto.randomUUID()
    : Date.now().toString(36) + Math.random().toString(36).slice(2);
}
"#;

/// The remote-call runtime in the browser.
pub const RPC_RUNTIME: &'static str = r#"function __csrf(): string {
  return (document.cookie.match(/(?:^|;\s*)xeres_csrf=([^;]*)/) || [])[1] || "\"#;

/// The head of the branded host page.
pub const INDEX_HEAD: &'static str = r#"<!doctype html>
<html lang="en">
<head>
<meta charset="utf-8" />
<meta name="viewport" content="width=device-width, initial-scale=1" />
<title>Xeres app</title>
<style>
:root { color-scheme: dark; }
* { box-sizing: border-box; }
body { margin: 0; min-height: 100vh; display: grid; place-items: center;
  font-family: system-ui, -apple-system, "Segoe UI", sans-serif; color: #e6e6ef;
  background: radial-gradient(900px 500px at 50% -10%, #241546 0%, #13151a 60%); }
.x-app { display: flex; flex-direction: column; align-items: center; text-align: center; padding: 2rem; gap: .25rem; }
.x-logo { font-size: 5rem; line-height: 1; margin-bottom: 1rem;
  background: linear-gradient(135deg, #a855f7, #6366f1); -webkit-background-clip: text; background-clip: text; color: transparent;
  filter: drop-shadow(0 0 26px rgba(124, 58, 237, .45)); }
#app h1 { font-size: 2.8rem; margin: .2rem 0; letter-spacing: -.02em; color: #c084fc; }
#app .x-col { display: flex; flex-direction: column; align-items: center; gap: .5rem; }
#app .x-row { display: flex; align-items: center; gap: .5rem; }
#app span { color: #a4a4c0; }
#app input { padding: .6rem .85rem; font-size: 1rem; border: 1px solid #3a3d48; border-radius: .5rem;
  background: #1c1f27; color: #e6e6ef; min-width: 18rem; }
#app input:focus { outline: none; border-color: #7c3aed; }
#app input::placeholder { color: #6f6f88; }
#app button { padding: .55rem 1.2rem; font-size: 1rem; border: 1px solid #7c3aed; border-radius: .5rem;
  background: #7c3aed; color: #fff; cursor: pointer; transition: background .15s; }
#app button:hover { background: #6d28d9; }
.hint { color: #7a7a96; }
.hint code { color: #d8b4fe; background: rgba(255,255,255,.06); padding: .1rem .4rem; border-radius: .3rem; }
footer { color: #6f6f88; font-size: .85rem; margin-top: 2rem; }
footer b { color: #a9a9c2; }
</style>
</head>
<body>
<main class="x-app">
<div class="x-logo">&#9670;</div>
"#;

/// The head of the host page for a screen that styles its own root.
pub const INDEX_HEAD_BLEED: &'static str = r#"<!doctype html>
<html lang="en">
<head>
<meta charset="utf-8" />
<meta name="viewport" content="width=device-width, initial-scale=1" />
<title>Xeres app</title>
<style>
* { box-sizing: border-box; }
html, body { margin: 0; padding: 0; }
body { min-height: 100vh; font-family: Inter, system-ui, -apple-system, "Segoe UI", sans-serif; }
#app { min-height: 100vh; }
#app .x-col { display: flex; flex-direction: column; gap: .5rem; }
#app .x-row { display: flex; gap: .5rem; }
#app button { font: inherit; padding: .5rem 1rem; border: 0; border-radius: .5rem; cursor: pointer; }
#app input { font: inherit; padding: .5rem .75rem; border: 1px solid #cbd5e1; border-radius: .5rem; }
</style>
</head>
<body>
"#;

/// The client router behind its route tables.
pub const ROUTER_RUNTIME: &'static str = r#" ];

// R32 — match a URL against the param-route patterns; on a hit, capture the
// `:name` segments into __params (the matched screen reads them, coerced).
function __matchRoute(path: string): string | null {
  const parts = path.split("/");
  for (const r of __paramRoutes) {
    if (r.segs.length !== parts.length) continue;
    const cap: Record<string, string> = {};
    let ok = true;
    for (let i = 0; i < r.segs.length; i++) {
      const seg = r.segs[i];
      if (seg.startsWith(":")) cap[seg.slice(1)] = decodeURIComponent(parts[i]);
      else if (seg !== parts[i]) { ok = false; break; }
    }
    if (ok) { __params = cap; return r.screen; }
  }
  return null;
}

// `navigate(Screen { id: x })` (R32): set the params, build the URL from the
// route pattern, switch screen, run its loader.
export function __navigateTo(screen: string, params: Record<string, string>): void {
  const r = __paramRoutes.find((x) => x.screen === screen);
  if (!r) return;
  __params = params;
  __screen = screen;
  const path = r.segs.map((s) => s.startsWith(":") ? encodeURIComponent(params[s.slice(1)] ?? "") : s).join("/") || "/";
  if (typeof history !== "undefined") history.pushState({}, "", path);
  if (__draw) __draw();
  const l = __loaders[screen]; if (l) l();
}

// R31 — the readable `xeres_auth` flag (set alongside the HttpOnly session on
// login) lets the router bounce unauthenticated users off `auth` routes. It is
// only a UX hint: forging it reveals an empty shell, since data still needs the
// signed session (R24), and the server applies the same guard on shell requests.
function __authed(): boolean {
  return typeof document !== "undefined"
    && document.cookie.split(";").some((c) => c.trim().startsWith("xeres_auth="));
}
function __guard(name: string): string {
  return (__protected[name] && !__authed()) ? __defaultScreen : name;
}

export function __navigate(name: string): void {
  if (!(name in __render)) return;
  name = __guard(name);
  __screen = name;
  if (typeof history !== "undefined") history.pushState({}, "", __path[name]);
  if (__draw) __draw();
  const l = __loaders[name]; if (l) l();
}

function __routeFromUrl(): void {
  const p = (typeof location !== "undefined") ? location.pathname : "/";
  __screen = __guard(__byPath[p] || __matchRoute(p) || __defaultScreen);
}

if (typeof window !== "undefined") {
  window.addEventListener("popstate", () => {
    __routeFromUrl();
    if (__draw) __draw();
    const l = __loaders[__screen]; if (l) l();
  });
}

export function __start(rootId: string): void {
  const el = document.getElementById(rootId);
  __routeFromUrl();
  if (el) mount(el, () => __render[__screen]());
  const l = __loaders[__screen]; if (l) l();
}
__start("app");
"#;

/// The browser runtimes that a client is linked with: the DOM mount, the sync client, Decimal
/// arithmetic, and the theme toggle.
#[derive(Debug)]
pub struct Runtime {
    pub mount: String,
    pub sync: String,
    pub decimal: String,
    pub theme: String,
}

} // verus!
