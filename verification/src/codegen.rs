//! The code generator: one program becomes a server, a client, a host page, a manifest and a
//! stylesheet.
use vstd::prelude::*;

use vstd::string::*;

use crate::ast::XeresProgram;
use crate::client::{client_text, gen_client};
use crate::css::{gen_stylesheet, stylesheet_text};
use crate::index::{cargo_text, gen_cargo, gen_index, index_text};
use crate::runtime::Runtime;
use crate::server::{decoders_end, gen_server, server_decoders_end, server_text};
use crate::strmap::StrMap;

verus! {

/// Generates the server tier, the browser tier, the host page, the manifest and the stylesheet of
/// a program, in this order. Which functions return secrets has no bearing on the output: the
/// program was checked before. A decoder into a model that nests itself never ends, so a program whose
/// server would hold one is left out.
pub fn generate(p: &XeresProgram, _returns_secret: &StrMap<bool>, rt: &Runtime) -> (r: (
    String,
    String,
    String,
    String,
    String,
))
    requires
        decoders_end(*p),
    ensures
        r.0@ == server_text(*p),
        r.1@ == client_text(*p, *rt),
        r.2@ == index_text(*p, stylesheet_text(*p).len() > 0),
        r.3@ == cargo_text(*p),
        r.4@ == stylesheet_text(*p),
{
    let css = gen_stylesheet(p);
    let has_css = css.as_str().unicode_len() > 0;
    (gen_server(p), gen_client(p, rt), gen_index(p, has_css), gen_cargo(p), css)
}

/// Generates a program's code, or nothing where a decoder of its server would not come to an end.
pub fn generate_checked(p: &XeresProgram, returns_secret: &StrMap<bool>, rt: &Runtime) -> (r: Option<
    (String, String, String, String, String),
>)
    ensures
        r is Some == decoders_end(*p),
        r matches Some(out) ==> out.0@ == server_text(*p) && out.1@ == client_text(*p, *rt)
            && out.2@ == index_text(*p, stylesheet_text(*p).len() > 0) && out.3@ == cargo_text(*p)
            && out.4@ == stylesheet_text(*p),
{
    if server_decoders_end(p) {
        Some(generate(p, returns_secret, rt))
    } else {
        None
    }
}

/// Two runs of `generate` on one program give the same five texts, whatever is said of the functions
/// that return secrets.
pub proof fn law_output_is_of_the_program_alone(
    p: XeresProgram,
    m: StrMap<bool>,
    n: StrMap<bool>,
    rt: Runtime,
    a: (String, String, String, String, String),
    b: (String, String, String, String, String),
)
    requires
        call_ensures(generate, (&p, &m, &rt), a),
        call_ensures(generate, (&p, &n, &rt), b),
    ensures
        a.0@ == b.0@,
        a.1@ == b.1@,
        a.2@ == b.2@,
        a.3@ == b.3@,
        a.4@ == b.4@,
{
}

} // verus!
