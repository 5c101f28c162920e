//! The host page, and the manifest of the generated crate.
use vstd::prelude::*;
use vstd::string::*;

use crate::ast::{ScreenNode, ViewNode, XeresProgram};
use crate::client::{default_screen, first_navigable};
use crate::runtime::{INDEX_HEAD, INDEX_HEAD_BLEED};
use crate::scan::{replace_first, replace_one};
use crate::text::{cat2, cat9};
use crate::uses::{
    functions_use_spec, uses_auth, uses_db, uses_decimal, uses_decimal_spec, uses_session, Feature,
};

verus! {

/// Whether a screen owns the canvas: one of its outermost nodes is a styled element.
pub open spec fn is_bleed(sc: ScreenNode) -> bool {
    exists|i: int|
        0 <= i < sc.body@.len() && (#[trigger] sc.body@[i]) is Element
            && sc.body@[i]->Element_style is Some
}

/// Whether a screen owns the canvas: one of its outermost nodes is a styled element.
pub fn screen_is_bleed(sc: &ScreenNode) -> (r: bool)
    ensures
        r == is_bleed(*sc),
{
    let mut i: usize = 0;
    while i < sc.body.len()
        invariant
            i <= sc.body.len(),
            forall|j: int|
                0 <= j < i ==> !((#[trigger] sc.body@[j]) is Element
                    && sc.body@[j]->Element_style is Some),
        decreases sc.body.len() - i,
    {
        if let ViewNode::Element { style, .. } = &sc.body[i] {
            if style.is_some() {
                return true;
            }
        }
        i = i + 1;
    }
    false
}

/// The head of a page, with the stylesheet linked where there is one.
pub open spec fn linked_head(head: Seq<char>, has_css: bool) -> Seq<char> {
    if has_css {
        replace_first(
            head,
            "</head>"@,
            "<link rel=\"stylesheet\" href=\"/app.css\">\n</head>"@,
        )
    } else {
        head
    }
}

/// Links the stylesheet in the head of a page, where there is one.
pub fn inject_css_link(head: &str, has_css: bool) -> (r: String)
    ensures
        r@ == linked_head(head@, has_css),
{
    if has_css {
        replace_one(
            head,
            "</head>",
            "<link rel=\"stylesheet\" href=\"/app.css\">\n</head>",
        )
    } else {
        head.to_owned()
    }
}

/// The host page. A screen that styles its own root renders on a neutral page; any other one keeps
/// the branded shell; a program without a screen at `/` says how to add one.
pub open spec fn index_text(p: XeresProgram, has_css: bool) -> Seq<char> {
    match first_navigable(p.screens@, 0) {
        Some(i) => if is_bleed(p.screens@[i]) {
            linked_head(INDEX_HEAD_BLEED@, has_css)
                + "<div id=\"app\"></div><script type=\"module\" src=\"/client.js\"></script></body></html>"@
        } else {
            linked_head(INDEX_HEAD@, has_css)
                + "<div id=\"app\"></div><footer>powered by <b>Xeres</b> · tier-safe web · zero framework runtime</footer></main><script type=\"module\" src=\"/client.js\"></script></body></html>"@
        },
        None => linked_head(INDEX_HEAD@, has_css)
            + "<div id=\"app\" class=\"hint\">Add a <code>ui screen Name { … }</code> to app.xrs.</div><footer>powered by <b>Xeres</b> · tier-safe web · zero framework runtime</footer></main></body></html>"@,
    }
}

/// Generates the host page.
pub fn gen_index(p: &XeresProgram, has_css: bool) -> (r: String)
    ensures
        r@ == index_text(*p, has_css),
{
    match default_screen(&p.screens) {
        Some(i) => if screen_is_bleed(&p.screens[i]) {
            cat2(
                &inject_css_link(INDEX_HEAD_BLEED, has_css),
                "<div id=\"app\"></div><script type=\"module\" src=\"/client.js\"></script></body></html>",
            )
        } else {
            cat2(
                &inject_css_link(INDEX_HEAD, has_css),
                "<div id=\"app\"></div><footer>powered by <b>Xeres</b> · tier-safe web · zero framework runtime</footer></main><script type=\"module\" src=\"/client.js\"></script></body></html>",
            )
        },
        None => cat2(
            &inject_css_link(INDEX_HEAD, has_css),
            "<div id=\"app\" class=\"hint\">Add a <code>ui screen Name { … }</code> to app.xrs.</div><footer>powered by <b>Xeres</b> · tier-safe web · zero framework runtime</footer></main></body></html>",
        ),
    }
}

/// A line where a condition holds, nothing where it does not.
pub open spec fn line_if(cond: bool, t: Seq<char>) -> Seq<char> {
    if cond {
        t
    } else {
        ""@
    }
}

fn pick(cond: bool, t: &'static str) -> (r: &'static str)
    ensures
        r@ == line_if(cond, t@),
{
    if cond {
        t
    } else {
        ""
    }
}

/// The manifest of the generated crate. A dependency is there only where the program uses what it
/// is for; TLS is always offered as a feature.
pub open spec fn cargo_text(p: XeresProgram) -> Seq<char> {
    let session = functions_use_spec(p, Feature::Session);
    let decimal = uses_decimal_spec(p);
    "[package]\nname = \"xeres-app\"\nversion = \"0.0.1\"\nedition = \"2021\"\n\n[[bin]]\nname = \"xeres-app\"\npath = \"src/main.rs\"\n\n[dependencies]\n"@
        + line_if(
        functions_use_spec(p, Feature::Db),
        "postgres = \"0.19\"\npostgres-native-tls = \"0.5\"\nnative-tls = \"0.2\"\n"@,
    ) + line_if(
        functions_use_spec(p, Feature::Auth),
        "argon2 = { version = \"0.5\", features = [\"std\"] }\n"@,
    ) + line_if(
        session,
        "hmac = { version = \"0.13\", optional = true }\nsha2 = { version = \"0.11\", optional = true }\n"@,
    ) + line_if(p.endpoints@.len() > 0, "ureq = \"2\"\n"@) + line_if(
        decimal,
        "rust_decimal = { version = \"1\", optional = true }\n"@,
    )
        + "rustls = { version = \"0.23\", default-features = false, features = [\"ring\", \"std\", \"tls12\"], optional = true }\nrustls-pemfile = { version = \"2\", optional = true }\n\n[features]\ntls = [\"dep:rustls\", \"dep:rustls-pemfile\"]\n"@
        + line_if(session, "auth = [\"dep:hmac\", \"dep:sha2\"]\n"@) + line_if(
        decimal,
        "decimal = [\"dep:rust_decimal\"]\ndefault = [\"decimal\"]\n"@,
    )
}

/// Generates the manifest of the generated crate.
pub fn gen_cargo(p: &XeresProgram) -> (r: String)
    ensures
        r@ == cargo_text(*p),
{
    let session = uses_session(p);
    let decimal = uses_decimal(p);
    cat9(
        "[package]\nname = \"xeres-app\"\nversion = \"0.0.1\"\nedition = \"2021\"\n\n[[bin]]\nname = \"xeres-app\"\npath = \"src/main.rs\"\n\n[dependencies]\n",
        pick(
            uses_db(p),
            "postgres = \"0.19\"\npostgres-native-tls = \"0.5\"\nnative-tls = \"0.2\"\n",
        ),
        pick(uses_auth(p), "argon2 = { version = \"0.5\", features = [\"std\"] }\n"),
        pick(
            session,
            "hmac = { version = \"0.13\", optional = true }\nsha2 = { version = \"0.11\", optional = true }\n",
        ),
        pick(p.endpoints.len() > 0, "ureq = \"2\"\n"),
        pick(decimal, "rust_decimal = { version = \"1\", optional = true }\n"),
        "rustls = { version = \"0.23\", default-features = false, features = [\"ring\", \"std\", \"tls12\"], optional = true }\nrustls-pemfile = { version = \"2\", optional = true }\n\n[features]\ntls = [\"dep:rustls\", \"dep:rustls-pemfile\"]\n",
        pick(session, "auth = [\"dep:hmac\", \"dep:sha2\"]\n"),
        pick(decimal, "decimal = [\"dep:rust_decimal\"]\ndefault = [\"decimal\"]\n"),
    )
}

} // verus!
