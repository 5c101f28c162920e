//! What the host page says of the stylesheet.
use vstd::prelude::*;
use vstd::string::*;

use crate::ast::XeresProgram;
use crate::css::stylesheet_text;
use crate::index::{index_text, linked_head};
use crate::runtime::{INDEX_HEAD, INDEX_HEAD_BLEED};
use crate::scan::{find_from, lemma_find_from};

verus! {

/// Whether a text holds another one.
pub open spec fn holds(t: Seq<char>, p: Seq<char>) -> bool {
    exists|i: int| 0 <= i && i + p.len() <= t.len() && #[trigger] t.subrange(i, i + p.len()) == p
}

/// The tag that links the stylesheet.
pub open spec fn css_link() -> Seq<char> {
    "<link rel=\"stylesheet\" href=\"/app.css\">"@
}

// The link is the one place of a page where a slash stands before an `a`.
spec fn slash_a(t: Seq<char>, i: int) -> bool {
    0 <= i && i + 1 < t.len() && t[i] == '/' && t[i + 1] == 'a'
}

// A part of a page without the link that does not end in a slash.
spec fn plain(t: Seq<char>) -> bool {
    &&& forall|i: int| !slash_a(t, i)
    &&& t.len() > 0
    &&& t.last() != '/'
}

#[verifier::rlimit(60)]
proof fn lemma_shell()
    ensures
        plain(INDEX_HEAD@),
        INDEX_HEAD@.len() == 1912,
        INDEX_HEAD@.subrange(1842, 1849) == "</head>"@,
{
    reveal_strlit(r#"<!doctype html>
<html lang="en">
<head>
<meta charset="utf-8" />
<meta name="viewport" content="width=device-width, initial-scale=1" />
<title>Xeres app</title>
<style>
:root { color-scheme: dark; }
* { box-sizing: border-box; }
body { margin: 0; min-height: 100vh; display: grid; place-items: center;
  font-family: system-ui, -apple-system, "Segoe UI", sans-serif; color: #e6e6ef;
  background: radial-gradient(900px 500px at 50% -10%, #241546 0%, #13151a 60%); }
.x-app { display: flex; flex-direction: column; align-items: center; text-align: center; padding: 2rem; gap: .25rem; }
.x-logo { font-size: 5rem; line-height: 1; margin-bottom: 1rem;
  background: linear-gradient(135deg, #a855f7, #6366f1); -webkit-background-clip: text; background-clip: text; color: transparent;
  filter: drop-shadow(0 0 26px rgba(124, 58, 237, .45)); }
#app h1 { font-size: 2.8rem; margin: .2rem 0; letter-spacing: -.02em; color: #c084fc; }
#app .x-col { display: flex; flex-direction: column; align-items: center; gap: .5rem; }
#app .x-row { display: flex; align-items: center; gap: .5rem; }
#app span { color: #a4a4c0; }
#app input { padding: .6rem .85rem; font-size: 1rem; border: 1px solid #3a3d48; border-radius: .5rem;
  background: #1c1f27; color: #e6e6ef; min-width: 18rem; }
#app input:focus { outline: none; border-color: #7c3aed; }
#app input::placeholder { color: #6f6f88; }
#app button { padding: .55rem 1.2rem; font-size: 1rem; border: 1px solid #7c3aed; border-radius: .5rem;
  background: #7c3aed; color: #fff; cursor: pointer; transition: background .15s; }
#app button:hover { background: #6d28d9; }
.hint { color: #7a7a96; }
.hint code { color: #d8b4fe; background: rgba(255,255,255,.06); padding: .1rem .4rem; border-radius: .3rem; }
footer { color: #6f6f88; font-size: .85rem; margin-top: 2rem; }
footer b { color: #a9a9c2; }
</style>
</head>
<body>
<main class="x-app">
<div class="x-logo">&#9670;</div>
"#);
    reveal_strlit("</head>");
}

#[verifier::rlimit(30)]
proof fn lemma_bleed()
    ensures
        plain(INDEX_HEAD_BLEED@),
        INDEX_HEAD_BLEED@.len() == 701,
        INDEX_HEAD_BLEED@.subrange(686, 693) == "</head>"@,
{
    reveal_strlit(r#"<!doctype html>
<html lang="en">
<head>
<meta charset="utf-8" />
<meta name="viewport" content="width=device-width, initial-scale=1" />
<title>Xeres app</title>
<style>
* { box-sizing: border-box; }
html, body { margin: 0; padding: 0; }
body { min-height: 100vh; font-family: Inter, system-ui, -apple-system, "Segoe UI", sans-serif; }
#app { min-height: 100vh; }
#app .x-col { display: flex; flex-direction: column; gap: .5rem; }
#app .x-row { display: flex; gap: .5rem; }
#app button { font: inherit; padding: .5rem 1rem; border: 0; border-radius: .5rem; cursor: pointer; }
#app input { font: inherit; padding: .5rem .75rem; border: 1px solid #cbd5e1; border-radius: .5rem; }
</style>
</head>
<body>
"#);
    reveal_strlit("</head>");
}

proof fn lemma_tails()
    ensures
        plain(
            "<div id=\"app\"></div><script type=\"module\" src=\"/client.js\"></script></body></html>"@,
        ),
        plain(
            "<div id=\"app\"></div><footer>powered by <b>Xeres</b> · tier-safe web · zero framework runtime</footer></main><script type=\"module\" src=\"/client.js\"></script></body></html>"@,
        ),
        plain(
            "<div id=\"app\" class=\"hint\">Add a <code>ui screen Name { … }</code> to app.xrs.</div><footer>powered by <b>Xeres</b> · tier-safe web · zero framework runtime</footer></main></body></html>"@,
        ),
{
    reveal_strlit(
        "<div id=\"app\"></div><script type=\"module\" src=\"/client.js\"></script></body></html>",
    );
    reveal_strlit(
        "<div id=\"app\"></div><footer>powered by <b>Xeres</b> · tier-safe web · zero framework runtime</footer></main><script type=\"module\" src=\"/client.js\"></script></body></html>",
    );
    reveal_strlit(
        "<div id=\"app\" class=\"hint\">Add a <code>ui screen Name { … }</code> to app.xrs.</div><footer>powered by <b>Xeres</b> · tier-safe web · zero framework runtime</footer></main></body></html>",
    );
}

proof fn lemma_unlinked(head: Seq<char>, tail: Seq<char>)
    requires
        plain(head),
        plain(tail),
    ensures
        !holds(head + tail, css_link()),
{
    let t = head + tail;
    assert forall|i: int| !slash_a(t, i) by {
        if i + 1 < head.len() {
            assert(!slash_a(head, i));
        } else if i >= head.len() {
            assert(!slash_a(tail, i - head.len()));
        }
    }
    reveal_strlit("<link rel=\"stylesheet\" href=\"/app.css\">");
    let p = css_link();
    assert(p.len() == 39);
    assert(p[29] == '/' && p[30] == 'a');
    assert forall|i: int| 0 <= i && i + p.len() <= t.len() implies #[trigger] t.subrange(
        i,
        i + p.len(),
    ) != p by {
        let u = t.subrange(i, i + p.len());
        assert(!slash_a(t, i + 29));
        assert(u[29] == t[i + 29] && u[30] == t[i + 30]);
    }
}

proof fn lemma_found(s: Seq<char>, p: Seq<char>, i: int, k: int)
    requires
        0 <= i <= k,
        k + p.len() <= s.len(),
        s.subrange(k, k + p.len()) == p,
    ensures
        find_from(s, p, i) is Some,
    decreases k - i,
{
    if s.subrange(i, i + p.len()) != p {
        lemma_found(s, p, i + 1, k);
    }
}

proof fn lemma_linked(head: Seq<char>, k: int, tail: Seq<char>)
    requires
        0 <= k,
        k + 7 <= head.len(),
        head.subrange(k, k + 7) == "</head>"@,
    ensures
        holds(linked_head(head, true) + tail, css_link()),
{
    reveal_strlit("</head>");
    reveal_strlit("<link rel=\"stylesheet\" href=\"/app.css\">");
    reveal_strlit("<link rel=\"stylesheet\" href=\"/app.css\">\n</head>");
    let p = css_link();
    let by = "<link rel=\"stylesheet\" href=\"/app.css\">\n</head>"@;
    assert(by.subrange(0, 39) =~= p);
    lemma_found(head, "</head>"@, 0, k);
    lemma_find_from(head, "</head>"@, 0);
    let at = find_from(head, "</head>"@, 0)->0;
    let t = linked_head(head, true) + tail;
    assert(t.subrange(at, at + p.len()) =~= by.subrange(0, 39));
}

/// A page links the stylesheet if and only if there is one, and a program that declares neither a
/// theme nor a style has none.
pub proof fn law_page_links_stylesheet(p: XeresProgram)
    ensures
        holds(index_text(p, stylesheet_text(p).len() > 0), css_link()) <==> stylesheet_text(p).len()
            > 0,
        p.themes@.len() == 0 && p.styles@.len() == 0 ==> stylesheet_text(p).len() == 0,
{
    reveal_strlit("");
    lemma_shell();
    lemma_bleed();
    lemma_tails();
    let bare = "<div id=\"app\"></div><script type=\"module\" src=\"/client.js\"></script></body></html>"@;
    let branded = "<div id=\"app\"></div><footer>powered by <b>Xeres</b> · tier-safe web · zero framework runtime</footer></main><script type=\"module\" src=\"/client.js\"></script></body></html>"@;
    let hint = "<div id=\"app\" class=\"hint\">Add a <code>ui screen Name { … }</code> to app.xrs.</div><footer>powered by <b>Xeres</b> · tier-safe web · zero framework runtime</footer></main></body></html>"@;
    if stylesheet_text(p).len() > 0 {
        lemma_linked(INDEX_HEAD_BLEED@, 686, bare);
        lemma_linked(INDEX_HEAD@, 1842, branded);
        lemma_linked(INDEX_HEAD@, 1842, hint);
    } else {
        lemma_unlinked(INDEX_HEAD_BLEED@, bare);
        lemma_unlinked(INDEX_HEAD@, branded);
        lemma_unlinked(INDEX_HEAD@, hint);
    }
}

} // verus!
