//! The expression and statement printers shared by both tiers: the same tree is
//! spelled as TypeScript (`ts`) or as Rust.
use vstd::prelude::*;
use vstd::string::*;

use crate::ast::{BinOp, Expr, UnOp};
use crate::fmt::{float_lit, float_lit_text};
use crate::num::{i64_text, int_text};
use crate::text::{
    after_prefix, cat2, cat3, cat4, cat5, cat6, cat7, cat9, join_text, same, strip_prefix, Parts,
};
use crate::unicode::{
    char_is_upper, debug_text, lower_text, lowercase, quoted, upper_text, uppercase,
};
use crate::uses::{is_ident, is_ident_text};

verus! {

/// The spelling of a binary operator, the same on both tiers.
pub open spec fn binop_text(op: BinOp) -> Seq<char> {
    match op {
        BinOp::Add => "+"@,
        BinOp::Sub => "-"@,
        BinOp::Mul => "*"@,
        BinOp::Div => "/"@,
        BinOp::Eq => "=="@,
        BinOp::NotEq => "!="@,
        BinOp::Lt => "<"@,
        BinOp::Gt => ">"@,
        BinOp::LtEq => "<="@,
        BinOp::GtEq => ">="@,
        BinOp::And => "&&"@,
        BinOp::Or => "||"@,
    }
}

/// The spelling of a binary operator, the same on both tiers.
pub fn binop_sym(op: BinOp) -> (r: &'static str)
    ensures
        r@ == binop_text(op),
{
    match op {
        BinOp::Add => "+",
        BinOp::Sub => "-",
        BinOp::Mul => "*",
        BinOp::Div => "/",
        BinOp::Eq => "==",
        BinOp::NotEq => "!=",
        BinOp::Lt => "<",
        BinOp::Gt => ">",
        BinOp::LtEq => "<=",
        BinOp::GtEq => ">=",
        BinOp::And => "&&",
        BinOp::Or => "||",
    }
}

/// The spelling of a prefix operator.
pub open spec fn unop_text(op: UnOp) -> Seq<char> {
    match op {
        UnOp::Neg => "-"@,
        UnOp::Not => "!"@,
    }
}

/// The spelling of a prefix operator.
pub fn unop_sym(op: UnOp) -> (r: &'static str)
    ensures
        r@ == unop_text(op),
{
    match op {
        UnOp::Neg => "-",
        UnOp::Not => "!",
    }
}

/// Whether a name starts with an upper-case letter, as an enum's does.
pub open spec fn starts_upper_text(name: Seq<char>) -> bool {
    name.len() > 0 && char_is_upper(name[0])
}

/// Whether a name starts with an upper-case letter, as an enum's does.
pub fn starts_upper(name: &str) -> (r: bool)
    ensures
        r == starts_upper_text(name@),
{
    name.unicode_len() > 0 && name.get_char(0).is_uppercase()
}

/// A text literal of the target tier. Rust strings are owned end to end.
pub open spec fn str_lit_text(s: Seq<char>, ts: bool) -> Seq<char> {
    if ts {
        debug_text(s)
    } else {
        "String::from("@ + debug_text(s) + ")"@
    }
}

/// A text literal of the target tier.
pub fn str_lit(s: &str, ts: bool) -> (r: String)
    ensures
        r@ == str_lit_text(s@, ts),
{
    if ts {
        quoted(s)
    } else {
        cat3("String::from(", &quoted(s), ")")
    }
}

/// The text at an index of a list, or the empty text behind its end.
pub open spec fn nth_text(a: Seq<Seq<char>>, i: int) -> Seq<char> {
    if 0 <= i < a.len() {
        a[i]
    } else {
        Seq::empty()
    }
}

/// The text at an index of a list, or the empty text behind its end.
pub fn nth(a: &Parts, i: usize) -> (r: String)
    ensures
        r@ == nth_text(a@, i as int),
{
    if i < a.len() {
        a.get(i).clone()
    } else {
        String::new()
    }
}

/// The builtin String methods, spelled for a tier; `None` for any other method.
pub open spec fn string_method_text(
    recv: Seq<char>,
    method: Seq<char>,
    a: Seq<Seq<char>>,
    ts: bool,
) -> Option<Seq<char>> {
    if method == "trim"@ {
        Some(recv + (if ts { ".trim()"@ } else { ".trim().to_string()"@ }))
    } else if method == "upper"@ {
        Some(recv + (if ts { ".toUpperCase()"@ } else { ".to_uppercase()"@ }))
    } else if method == "lower"@ {
        Some(recv + (if ts { ".toLowerCase()"@ } else { ".to_lowercase()"@ }))
    } else if method == "length"@ {
        Some(if ts { recv + ".length"@ } else { "("@ + recv + ").x_len()"@ })
    } else if method == "contains"@ {
        Some(
            if ts {
                recv + ".includes("@ + nth_text(a, 0) + ")"@
            } else {
                recv + ".contains("@ + nth_text(a, 0) + ".as_str())"@
            },
        )
    } else if method == "split"@ {
        Some(
            if ts {
                recv + ".split("@ + nth_text(a, 0) + ")"@
            } else {
                recv + ".split("@ + nth_text(a, 0)
                    + ".as_str()).map(|__p| __p.to_string()).collect::<Vec<String>>()"@
            },
        )
    } else if method == "replace"@ {
        Some(
            if ts {
                recv + ".split("@ + nth_text(a, 0) + ").join("@ + nth_text(a, 1) + ")"@
            } else {
                recv + ".replace("@ + nth_text(a, 0) + ".as_str(), "@ + nth_text(a, 1)
                    + ".as_str())"@
            },
        )
    } else {
        None
    }
}

/// The builtin String methods, spelled for a tier; `None` for any other method.
pub fn emit_string_method(recv: &str, method: &str, a: &Parts, ts: bool) -> (r: Option<String>)
    ensures
        match r {
            Some(t) => string_method_text(recv@, method@, a@, ts) == Some(t@),
            None => string_method_text(recv@, method@, a@, ts) is None,
        },
{
    if same(method, "trim") {
        Some(cat2(recv, if ts { ".trim()" } else { ".trim().to_string()" }))
    } else if same(method, "upper") {
        Some(cat2(recv, if ts { ".toUpperCase()" } else { ".to_uppercase()" }))
    } else if same(method, "lower") {
        Some(cat2(recv, if ts { ".toLowerCase()" } else { ".to_lowercase()" }))
    } else if same(method, "length") {
        Some(if ts { cat2(recv, ".length") } else { cat3("(", recv, ").x_len()") })
    } else if same(method, "contains") {
        Some(
            if ts {
                cat4(recv, ".includes(", &nth(a, 0), ")")
            } else {
                cat4(recv, ".contains(", &nth(a, 0), ".as_str())")
            },
        )
    } else if same(method, "split") {
        Some(
            if ts {
                cat4(recv, ".split(", &nth(a, 0), ")")
            } else {
                cat4(
                    recv,
                    ".split(",
                    &nth(a, 0),
                    ".as_str()).map(|__p| __p.to_string()).collect::<Vec<String>>()",
                )
            },
        )
    } else if same(method, "replace") {
        Some(
            if ts {
                cat6(recv, ".split(", &nth(a, 0), ").join(", &nth(a, 1), ")")
            } else {
                cat6(recv, ".replace(", &nth(a, 0), ".as_str(), ", &nth(a, 1), ".as_str())")
            },
        )
    } else {
        None
    }
}

/// `list.at(i)`: the element, or nothing where the index is out of bounds.
pub open spec fn at_text(recv: Seq<char>, i: Seq<char>, ts: bool) -> Seq<char> {
    if ts {
        "("@ + recv + ".at("@ + i + ") ?? null)"@
    } else {
        "{ let __i: i64 = "@ + i + "; if __i < 0 { None } else { "@ + recv
            + ".get(__i as usize).cloned() } }"@
    }
}

/// `list.at(i)`: the element, or nothing where the index is out of bounds.
pub fn emit_at(recv: &str, i: &str, ts: bool) -> (r: String)
    ensures
        r@ == at_text(recv@, i@, ts),
{
    if ts {
        cat5("(", recv, ".at(", i, ") ?? null)")
    } else {
        cat5(
            "{ let __i: i64 = ",
            i,
            "; if __i < 0 { None } else { ",
            recv,
            ".get(__i as usize).cloned() } }",
        )
    }
}

/// The builtin List methods, spelled for a tier; `None` for any other method.
pub open spec fn list_method_text(
    recv: Seq<char>,
    method: Seq<char>,
    a: Seq<Seq<char>>,
    ts: bool,
) -> Option<Seq<char>> {
    if method == "first"@ {
        Some(if ts { "("@ + recv + ".at(0) ?? null)"@ } else { recv + ".first().cloned()"@ })
    } else if method == "last"@ {
        Some(if ts { "("@ + recv + ".at(-1) ?? null)"@ } else { recv + ".last().cloned()"@ })
    } else if method == "at"@ {
        Some(at_text(recv, nth_text(a, 0), ts))
    } else if method == "reverse"@ {
        Some(
            if ts {
                "[..."@ + recv + "].reverse()"@
            } else {
                "{ let mut __v = "@ + recv + ".clone(); __v.reverse(); __v }"@
            },
        )
    } else {
        None
    }
}

/// The builtin List methods, spelled for a tier; `None` for any other method.
pub fn emit_list_method(recv: &str, method: &str, a: &Parts, ts: bool) -> (r: Option<String>)
    ensures
        match r {
            Some(t) => list_method_text(recv@, method@, a@, ts) == Some(t@),
            None => list_method_text(recv@, method@, a@, ts) is None,
        },
{
    if same(method, "first") {
        Some(if ts { cat3("(", recv, ".at(0) ?? null)") } else { cat2(recv, ".first().cloned()") })
    } else if same(method, "last") {
        Some(if ts { cat3("(", recv, ".at(-1) ?? null)") } else { cat2(recv, ".last().cloned()") })
    } else if same(method, "at") {
        Some(emit_at(recv, &nth(a, 0), ts))
    } else if same(method, "reverse") {
        Some(
            if ts {
                cat3("[...", recv, "].reverse()")
            } else {
                cat3("{ let mut __v = ", recv, ".clone(); __v.reverse(); __v }")
            },
        )
    } else {
        None
    }
}

/// How a named field is written: in an object, in a Rust struct literal, or as a
/// route parameter.
#[derive(Debug, Clone, Copy, PartialEq, Eq, Structural)]
pub enum FieldStyle {
    Object,
    Struct,
    Route,
}

/// One named field.
pub open spec fn field_text(style: FieldStyle, name: Seq<char>, value: Seq<char>) -> Seq<char> {
    match style {
        FieldStyle::Object => name + ": "@ + value,
        FieldStyle::Struct => name + ": ("@ + value + ").into()"@,
        FieldStyle::Route => debug_text(name) + ": String("@ + value + ")"@,
    }
}

/// One named field.
pub fn emit_field(style: FieldStyle, name: &str, value: &str) -> (r: String)
    ensures
        r@ == field_text(style, name@, value@),
{
    match style {
        FieldStyle::Object => cat3(name, ": ", value),
        FieldStyle::Struct => cat4(name, ": (", value, ").into()"),
        FieldStyle::Route => cat4(&quoted(name), ": String(", value, ")"),
    }
}

/// The TypeScript text literal for a `navigate(Screen)` argument: the screen's name.
pub open spec fn nav_target_text(args: Seq<Expr>) -> Seq<char> {
    if args.len() > 0 && args[0] is Ident {
        debug_text(args[0]->Ident_0@)
    } else {
        "\"\""@
    }
}

/// The TypeScript text literal for a `navigate(Screen)` argument: the screen's name.
pub fn nav_target_js(args: &Vec<Expr>) -> (r: String)
    ensures
        r@ == nav_target_text(args@),
{
    if args.len() > 0 {
        if let Expr::Ident(name) = &args[0] {
            return quoted(name);
        }
    }
    "\"\"".to_owned()
}

/// The math builtins, spelled for a tier; `None` for any other function.
pub open spec fn math_text(callee: Seq<char>, a: Seq<Seq<char>>, ts: bool) -> Option<Seq<char>> {
    if callee == "abs"@ {
        Some(
            if ts {
                "Math.abs("@ + nth_text(a, 0) + ")"@
            } else {
                "("@ + nth_text(a, 0) + ").abs()"@
            },
        )
    } else if callee == "min"@ {
        Some(
            if ts {
                "Math.min("@ + nth_text(a, 0) + ", "@ + nth_text(a, 1) + ")"@
            } else {
                "("@ + nth_text(a, 0) + ").min("@ + nth_text(a, 1) + ")"@
            },
        )
    } else if callee == "max"@ {
        Some(
            if ts {
                "Math.max("@ + nth_text(a, 0) + ", "@ + nth_text(a, 1) + ")"@
            } else {
                "("@ + nth_text(a, 0) + ").max("@ + nth_text(a, 1) + ")"@
            },
        )
    } else {
        None
    }
}

/// The math builtins, spelled for a tier; `None` for any other function.
pub fn emit_math(callee: &str, a: &Parts, ts: bool) -> (r: Option<String>)
    ensures
        match r {
            Some(t) => math_text(callee@, a@, ts) == Some(t@),
            None => math_text(callee@, a@, ts) is None,
        },
{
    if same(callee, "abs") {
        Some(
            if ts {
                cat3("Math.abs(", &nth(a, 0), ")")
            } else {
                cat3("(", &nth(a, 0), ").abs()")
            },
        )
    } else if same(callee, "min") {
        Some(
            if ts {
                cat5("Math.min(", &nth(a, 0), ", ", &nth(a, 1), ")")
            } else {
                cat5("(", &nth(a, 0), ").min(", &nth(a, 1), ")")
            },
        )
    } else if same(callee, "max") {
        Some(
            if ts {
                cat5("Math.max(", &nth(a, 0), ", ", &nth(a, 1), ")")
            } else {
                cat5("(", &nth(a, 0), ").max(", &nth(a, 1), ")")
            },
        )
    } else {
        None
    }
}

/// The text of an expression on a tier. `eps` are the declared endpoints' names.
pub open spec fn expr_text(e: Expr, ts: bool, eps: Seq<Seq<char>>) -> Seq<char>
    decreases e, 2int,
{
    match e {
        Expr::Int(n) => int_text(n as int),
        Expr::Float(f) => float_lit_text(f@),
        Expr::Str(s) => str_lit_text(s@, ts),
        Expr::Bool(b) => if b {
            "true"@
        } else {
            "false"@
        },
        Expr::Ident(v) => v@,
        Expr::Field { base, field } => if is_ident_text(*base, "session"@) && field@ == "actor"@ {
            if ts {
                "null"@
            } else {
                "session_actor()"@
            }
        } else if *base is Ident && starts_upper_text(base->Ident_0@) {
            str_lit_text(field@, ts)
        } else {
            expr_text(*base, ts, eps) + "."@ + field@
        },
        Expr::Call { .. } => call_text(e, ts, eps),
        Expr::Unary { op, expr } => unop_text(op) + expr_text(*expr, ts, eps),
        Expr::Binary { op, left, right } => "("@ + expr_text(*left, ts, eps) + " "@ + binop_text(op)
            + " "@ + expr_text(*right, ts, eps) + ")"@,
        Expr::Declassify(inner) => expr_text(*inner, ts, eps),
        Expr::Raw(inner) => expr_text(*inner, ts, eps),
        Expr::Await(inner) => "await "@ + expr_text(*inner, ts, eps),
        Expr::MethodCall { .. } => method_text(e, ts, eps),
        Expr::NoneLit => if ts {
            "null"@
        } else {
            "None"@
        },
        Expr::ListLit(items) => (if ts {
            "["@
        } else {
            "vec!["@
        }) + join_text(exprs_text(items@, items@.len() as int, ts, eps), ", "@) + "]"@,
        Expr::Ternary { cond, yes, otherwise } => if ts {
            "("@ + expr_text(*cond, ts, eps) + " ? "@ + expr_text(*yes, ts, eps) + " : "@
                + expr_text(*otherwise, ts, eps) + ")"@
        } else {
            "(if "@ + expr_text(*cond, ts, eps) + " { "@ + expr_text(*yes, ts, eps) + " } else { "@
                + expr_text(*otherwise, ts, eps) + " })"@
        },
        Expr::Record { name, fields } => if ts {
            "{ "@ + join_text(
                fields_text(FieldStyle::Object, fields@, fields@.len() as int, ts, eps),
                ", "@,
            ) + " }"@
        } else {
            name@ + " { "@ + join_text(
                fields_text(FieldStyle::Struct, fields@, fields@.len() as int, ts, eps),
                ", "@,
            ) + ", ..Default::default() }"@
        },
        Expr::Range { start, end } => {
            let s = expr_text(*start, ts, eps);
            let n = expr_text(*end, ts, eps);
            if ts {
                "Array.from({length: ("@ + n + ") - ("@ + s + ")}, (_, __i) => __i + ("@ + s + "))"@
            } else {
                "(("@ + s + ".."@ + n + ").collect::<Vec<i64>>())"@
            }
        },
        Expr::Closure { params, body } => {
            let ps = join_text(names_text(params@), ", "@);
            if ts {
                "("@ + ps + ") => "@ + expr_text(*body, ts, eps)
            } else {
                "|"@ + ps + "| "@ + expr_text(*body, ts, eps)
            }
        },
        Expr::Index { base, index } => at_text(
            expr_text(*base, ts, eps),
            expr_text(*index, ts, eps),
            ts,
        ),
    }
}

/// The views of a list of names.
pub open spec fn names_text(names: Seq<String>) -> Seq<Seq<char>> {
    Seq::new(names.len(), |i: int| names[i]@)
}

/// The texts of the first `n` expressions.
pub open spec fn exprs_text(es: Seq<Expr>, n: int, ts: bool, eps: Seq<Seq<char>>) -> Seq<Seq<char>>
    decreases es, n,
{
    if n <= 0 || n > es.len() {
        Seq::empty()
    } else {
        exprs_text(es, n - 1, ts, eps).push(expr_text(es[n - 1], ts, eps))
    }
}

/// The texts of the first `n` named fields.
pub open spec fn fields_text(
    style: FieldStyle,
    fs: Seq<(String, Expr)>,
    n: int,
    ts: bool,
    eps: Seq<Seq<char>>,
) -> Seq<Seq<char>>
    decreases fs, n,
{
    if n <= 0 || n > fs.len() {
        Seq::empty()
    } else {
        fields_text(style, fs, n - 1, ts, eps).push(
            field_text(style, fs[n - 1].0@, expr_text(fs[n - 1].1, ts, eps)),
        )
    }
}

/// The text of argument `i`, or a default where there is none.
pub open spec fn arg_text(
    args: Seq<Expr>,
    i: int,
    ts: bool,
    eps: Seq<Seq<char>>,
    default: Seq<char>,
) -> Seq<char>
    decreases args, 0int,
{
    if 0 <= i < args.len() {
        expr_text(args[i], ts, eps)
    } else {
        default
    }
}

/// The Postgres parameters among the first `n` arguments: all but the first, which is the SQL.
pub open spec fn pg_items(args: Seq<Expr>, n: int, eps: Seq<Seq<char>>) -> Seq<Seq<char>>
    decreases args, n,
{
    if n <= 1 || n > args.len() {
        Seq::empty()
    } else {
        pg_items(args, n - 1, eps).push(
            "&"@ + expr_text(args[n - 1], false, eps) + " as &(dyn ToSql + Sync)"@,
        )
    }
}

/// The Postgres parameter list behind the SQL argument.
pub open spec fn pg_params_text(args: Seq<Expr>, eps: Seq<Seq<char>>) -> Seq<char>
    decreases args, args.len() + 1,
{
    if args.len() <= 1 {
        "&[]"@
    } else {
        "&["@ + join_text(pg_items(args, args.len() as int, eps), ", "@) + "]"@
    }
}

/// The text of a call of a named function.
pub open spec fn call_text(e: Expr, ts: bool, eps: Seq<Seq<char>>) -> Seq<char>
    decreases e, 0int,
{
    match e {
        Expr::Call { callee, args } => {
            let a0 = arg_text(args@, 0, ts, eps, ""@);
            let a1 = arg_text(args@, 1, ts, eps, ""@);
            if callee@ == "now"@ && args@.len() == 0 {
                if ts {
                    "Date.now()"@
                } else {
                    "now()"@
                }
            } else if callee@ == "decimal"@ {
                arg_text(
                    args@,
                    0,
                    ts,
                    eps,
                    if ts {
                        "\"\""@
                    } else {
                        "String::new()"@
                    },
                )
            } else if after_prefix(callee@, "__dec_"@) is Some {
                let op = after_prefix(callee@, "__dec_"@)->0;
                if ts {
                    "__dec."@ + op + "("@ + a0 + ", "@ + a1 + ")"@
                } else {
                    "__dec_"@ + op + "(&("@ + a0 + "), &("@ + a1 + "))"@
                }
            } else if callee@ == "__list_contains"@ {
                if ts {
                    a0 + ".some((__e) => JSON.stringify(__e) === JSON.stringify("@ + a1 + "))"@
                } else {
                    a0 + ".contains(&("@ + a1 + "))"@
                }
            } else if callee@ == "__str_concat"@ {
                if ts {
                    "(\"\" + ("@ + a0 + ") + ("@ + a1 + "))"@
                } else {
                    "format!(\"{}{}\", "@ + a0 + ", "@ + a1 + ")"@
                }
            } else if callee@ == "navigate"@ {
                if args@.len() > 0 && args@[0] is Record {
                    let fields = args@[0]->Record_fields@;
                    "__navigateTo("@ + debug_text(args@[0]->Record_name@) + ", { "@ + join_text(
                        fields_text(FieldStyle::Route, fields, fields.len() as int, ts, eps),
                        ", "@,
                    ) + " })"@
                } else {
                    "__navigate("@ + nav_target_text(args@) + ")"@
                }
            } else if callee@ == "toggle_theme"@ {
                "__toggleTheme()"@
            } else {
                let a = exprs_text(args@, args@.len() as int, ts, eps);
                match math_text(callee@, a, ts) {
                    Some(t) => t,
                    None => callee@ + "("@ + join_text(a, ", "@) + ")"@,
                }
            }
        },
        _ => Seq::empty(),
    }
}

/// The name of the constant that holds an endpoint's host.
pub open spec fn endpoint_base_text(n: Seq<char>) -> Seq<char> {
    "__EP_"@ + upper_text(n) + "_BASE"@
}

/// The call that yields an endpoint's bearer token.
pub open spec fn endpoint_bearer_text(n: Seq<char>) -> Seq<char> {
    "__ep_"@ + lower_text(n) + "_bearer()"@
}

/// The text of a call on a builtin receiver (`session`, `db`, `log`, an endpoint), or
/// `None` where the receiver is an ordinary value.
pub open spec fn builtin_method_text(e: Expr, ts: bool, eps: Seq<Seq<char>>) -> Option<Seq<char>>
    decreases e, 0int,
{
    match e {
        Expr::MethodCall { receiver, method, args } => if is_ident_text(*receiver, "session"@) {
            if ts {
                Some("undefined"@)
            } else if method@ == "login"@ {
                Some(
                    "session_login(&("@ + arg_text(args@, 0, ts, eps, "String::new()"@) + "))"@,
                )
            } else if method@ == "logout"@ {
                Some("session_logout()"@)
            } else {
                Some("session_"@ + method@ + "()"@)
            }
        } else if is_ident_text(*receiver, "db"@) {
            Some(
                (if method@ == "exec"@ {
                    "db_exec(&("@
                } else {
                    "db_query(&("@
                }) + arg_text(args@, 0, ts, eps, "\"\""@) + "), "@ + pg_params_text(args@, eps)
                    + ")"@,
            )
        } else if is_ident_text(*receiver, "log"@) {
            let a = arg_text(args@, 0, ts, eps, "\"\""@);
            if ts {
                Some("console."@ + method@ + "("@ + a + ")"@)
            } else {
                Some(
                    "eprintln!(\"{{\\\"level\\\":\\\""@ + method@
                        + "\\\",\\\"msg\\\":{}}}\", json_str(&("@ + a + ")))"@,
                )
            }
        } else if *receiver is Ident && eps.contains(receiver->Ident_0@) {
            let n = receiver->Ident_0@;
            if ts {
                Some("\"\""@)
            } else {
                let path = arg_text(args@, 0, ts, eps, "String::new()"@);
                let base = endpoint_base_text(n);
                let bearer = endpoint_bearer_text(n);
                if method@ == "post"@ {
                    Some(
                        "http_post("@ + base + ", &("@ + path + "), &("@ + arg_text(
                            args@,
                            1,
                            ts,
                            eps,
                            "String::new()"@,
                        ) + "), &"@ + bearer + ")"@,
                    )
                } else {
                    Some("http_get("@ + base + ", &("@ + path + "), &"@ + bearer + ")"@)
                }
            }
        } else {
            None
        },
        _ => None,
    }
}

/// The text of a method call.
pub open spec fn method_text(e: Expr, ts: bool, eps: Seq<Seq<char>>) -> Seq<char>
    decreases e, 1int,
{
    match e {
        Expr::MethodCall { receiver, method, args } => match builtin_method_text(e, ts, eps) {
            Some(t) => t,
            None => {
                let recv = expr_text(*receiver, ts, eps);
                let a0 = arg_text(args@, 0, ts, eps, ""@);
                let a1 = arg_text(args@, 1, ts, eps, ""@);
                if method@ == "or"@ && args@.len() == 1 {
                    if ts {
                        "("@ + recv + " ?? "@ + a0 + ")"@
                    } else {
                        recv + ".clone().unwrap_or("@ + a0 + ")"@
                    }
                } else if method@ == "map"@ && args@.len() == 1 {
                    if ts {
                        recv + ".map("@ + a0 + ")"@
                    } else {
                        recv + ".clone().into_iter().map("@ + a0 + ").collect::<Vec<_>>()"@
                    }
                } else if method@ == "filter"@ && args@.len() == 1 {
                    if ts {
                        recv + ".filter("@ + a0 + ")"@
                    } else {
                        recv + ".clone().into_iter().filter("@ + a0 + ").collect::<Vec<_>>()"@
                    }
                } else if method@ == "reduce"@ && args@.len() == 2 {
                    if ts {
                        recv + ".reduce("@ + a1 + ", "@ + a0 + ")"@
                    } else {
                        recv + ".clone().into_iter().fold("@ + a0 + ", "@ + a1 + ")"@
                    }
                } else {
                    let a = exprs_text(args@, args@.len() as int, ts, eps);
                    match string_method_text(recv, method@, a, ts) {
                        Some(t) => t,
                        None => match list_method_text(recv, method@, a, ts) {
                            Some(t) => t,
                            None => recv + "."@ + method@ + "("@ + join_text(a, ", "@) + ")"@,
                        },
                    }
                }
            },
        },
        _ => Seq::empty(),
    }
}

/// The views of a list of names, as `Parts`.
pub fn names_parts(names: &Vec<String>) -> (r: Parts)
    ensures
        r@ == names_text(names@),
{
    let mut out = Parts::new();
    let mut i: usize = 0;
    while i < names.len()
        invariant
            i <= names.len(),
            out@ =~= names_text(names@).take(i as int),
        decreases names.len() - i,
    {
        out.push(names[i].clone());
        i = i + 1;
    }
    out
}

/// The texts of a list of expressions.
pub fn emit_exprs(es: &Vec<Expr>, ts: bool, eps: &Parts) -> (r: Parts)
    ensures
        r@ == exprs_text(es@, es@.len() as int, ts, eps@),
    decreases es, 0int,
{
    let mut out = Parts::new();
    let mut i: usize = 0;
    while i < es.len()
        invariant
            i <= es.len(),
            out@ == exprs_text(es@, i as int, ts, eps@),
        decreases es.len() - i,
    {
        let t = emit_expr(&es[i], ts, eps);
        out.push(t);
        i = i + 1;
    }
    out
}

/// The texts of a list of named fields.
pub fn emit_fields(style: FieldStyle, fs: &Vec<(String, Expr)>, ts: bool, eps: &Parts) -> (r:
    Parts)
    ensures
        r@ == fields_text(style, fs@, fs@.len() as int, ts, eps@),
    decreases fs, 0int,
{
    let mut out = Parts::new();
    let mut i: usize = 0;
    while i < fs.len()
        invariant
            i <= fs.len(),
            out@ == fields_text(style, fs@, i as int, ts, eps@),
        decreases fs.len() - i,
    {
        let t = emit_expr(&fs[i].1, ts, eps);
        out.push(emit_field(style, &fs[i].0, &t));
        i = i + 1;
    }
    out
}

/// The text of argument `i`, or a default where there is none.
pub fn emit_arg(args: &Vec<Expr>, i: usize, ts: bool, eps: &Parts, default: &str) -> (r: String)
    ensures
        r@ == arg_text(args@, i as int, ts, eps@, default@),
    decreases args, 0int,
{
    if i < args.len() {
        emit_expr(&args[i], ts, eps)
    } else {
        default.to_owned()
    }
}

/// The Postgres parameter list behind the SQL argument.
pub fn pg_params(args: &Vec<Expr>, eps: &Parts) -> (r: String)
    ensures
        r@ == pg_params_text(args@, eps@),
    decreases args, 0int,
{
    if args.len() <= 1 {
        return "&[]".to_owned();
    }
    let mut items = Parts::new();
    let mut i: usize = 1;
    while i < args.len()
        invariant
            1 <= i <= args.len(),
            items@ == pg_items(args@, i as int, eps@),
        decreases args.len() - i,
    {
        let t = emit_expr(&args[i], false, eps);
        items.push(cat3("&", &t, " as &(dyn ToSql + Sync)"));
        i = i + 1;
    }
    cat3("&[", &items.join(", "), "]")
}

/// Prints an expression for a tier.
pub fn emit_expr(e: &Expr, ts: bool, eps: &Parts) -> (r: String)
    ensures
        r@ == expr_text(*e, ts, eps@),
    decreases e, 2int,
{
    match e {
        Expr::Int(n) => i64_text(*n),
        Expr::Float(f) => float_lit(f),
        Expr::Str(s) => str_lit(s, ts),
        Expr::Bool(b) => if *b {
            "true".to_owned()
        } else {
            "false".to_owned()
        },
        Expr::Ident(v) => v.clone(),
        Expr::Field { base, field } => {
            if is_ident(base, "session") && same(field, "actor") {
                return if ts {
                    "null".to_owned()
                } else {
                    "session_actor()".to_owned()
                };
            }
            if let Expr::Ident(name) = &**base {
                if starts_upper(name) {
                    return str_lit(field, ts);
                }
            }
            let b = emit_expr(base, ts, eps);
            cat3(&b, ".", field)
        },
        Expr::Call { .. } => emit_call(e, ts, eps),
        Expr::Unary { op, expr } => {
            let x = emit_expr(expr, ts, eps);
            cat2(unop_sym(*op), &x)
        },
        Expr::Binary { op, left, right } => {
            let l = emit_expr(left, ts, eps);
            let r = emit_expr(right, ts, eps);
            cat7("(", &l, " ", binop_sym(*op), " ", &r, ")")
        },
        Expr::Declassify(inner) => emit_expr(inner, ts, eps),
        Expr::Raw(inner) => emit_expr(inner, ts, eps),
        Expr::Await(inner) => {
            let x = emit_expr(inner, ts, eps);
            cat2("await ", &x)
        },
        Expr::MethodCall { .. } => emit_method(e, ts, eps),
        Expr::NoneLit => if ts {
            "null".to_owned()
        } else {
            "None".to_owned()
        },
        Expr::ListLit(items) => {
            let body = emit_exprs(items, ts, eps).join(", ");
            cat3(
                if ts {
                    "["
                } else {
                    "vec!["
                },
                &body,
                "]",
            )
        },
        Expr::Ternary { cond, yes, otherwise } => {
            let c = emit_expr(cond, ts, eps);
            let y = emit_expr(yes, ts, eps);
            let o = emit_expr(otherwise, ts, eps);
            if ts {
                cat7("(", &c, " ? ", &y, " : ", &o, ")")
            } else {
                cat7("(if ", &c, " { ", &y, " } else { ", &o, " })")
            }
        },
        Expr::Record { name, fields } => if ts {
            let body = emit_fields(FieldStyle::Object, fields, ts, eps).join(", ");
            cat3("{ ", &body, " }")
        } else {
            let body = emit_fields(FieldStyle::Struct, fields, ts, eps).join(", ");
            cat4(name, " { ", &body, ", ..Default::default() }")
        },
        Expr::Range { start, end } => {
            let s = emit_expr(start, ts, eps);
            let n = emit_expr(end, ts, eps);
            if ts {
                cat7(
                    "Array.from({length: (",
                    &n,
                    ") - (",
                    &s,
                    ")}, (_, __i) => __i + (",
                    &s,
                    "))",
                )
            } else {
                cat5("((", &s, "..", &n, ").collect::<Vec<i64>>())")
            }
        },
        Expr::Closure { params, body } => {
            let ps = names_parts(params).join(", ");
            let b = emit_expr(body, ts, eps);
            if ts {
                cat4("(", &ps, ") => ", &b)
            } else {
                cat4("|", &ps, "| ", &b)
            }
        },
        Expr::Index { base, index } => {
            let b = emit_expr(base, ts, eps);
            let i = emit_expr(index, ts, eps);
            emit_at(&b, &i, ts)
        },
    }
}

/// Prints a call of a named function for a tier.
fn emit_call(e: &Expr, ts: bool, eps: &Parts) -> (r: String)
    ensures
        r@ == call_text(*e, ts, eps@),
    decreases e, 0int,
{
    match e {
        Expr::Call { callee, args } => {
            if same(callee, "now") && args.len() == 0 {
                return if ts {
                    "Date.now()".to_owned()
                } else {
                    "now()".to_owned()
                };
            }
            if same(callee, "decimal") {
                return emit_arg(
                    args,
                    0,
                    ts,
                    eps,
                    if ts {
                        "\"\""
                    } else {
                        "String::new()"
                    },
                );
            }
            if let Some(op) = strip_prefix(callee, "__dec_") {
                let a0 = emit_arg(args, 0, ts, eps, "");
                let a1 = emit_arg(args, 1, ts, eps, "");
                return if ts {
                    cat7("__dec.", op, "(", &a0, ", ", &a1, ")")
                } else {
                    cat7("__dec_", op, "(&(", &a0, "), &(", &a1, "))")
                };
            }
            if same(callee, "__list_contains") {
                let a0 = emit_arg(args, 0, ts, eps, "");
                let a1 = emit_arg(args, 1, ts, eps, "");
                return if ts {
                    cat4(&a0, ".some((__e) => JSON.stringify(__e) === JSON.stringify(", &a1, "))")
                } else {
                    cat4(&a0, ".contains(&(", &a1, "))")
                };
            }
            if same(callee, "__str_concat") {
                let a0 = emit_arg(args, 0, ts, eps, "");
                let a1 = emit_arg(args, 1, ts, eps, "");
                return if ts {
                    cat5("(\"\" + (", &a0, ") + (", &a1, "))")
                } else {
                    cat5("format!(\"{}{}\", ", &a0, ", ", &a1, ")")
                };
            }
            if same(callee, "navigate") {
                if args.len() > 0 {
                    if let Expr::Record { name, fields } = &args[0] {
                        let ps = emit_fields(FieldStyle::Route, fields, ts, eps).join(", ");
                        return cat5("__navigateTo(", &quoted(name), ", { ", &ps, " })");
                    }
                }
                return cat3("__navigate(", &nav_target_js(args), ")");
            }
            if same(callee, "toggle_theme") {
                return "__toggleTheme()".to_owned();
            }
            let a = emit_exprs(args, ts, eps);
            match emit_math(callee, &a, ts) {
                Some(t) => t,
                None => cat4(callee, "(", &a.join(", "), ")"),
            }
        },
        _ => String::new(),
    }
}

/// Prints a call on a builtin receiver, or `None` where the receiver is an ordinary value.
fn emit_builtin_method(e: &Expr, ts: bool, eps: &Parts) -> (r: Option<String>)
    ensures
        match r {
            Some(t) => builtin_method_text(*e, ts, eps@) == Some(t@),
            None => builtin_method_text(*e, ts, eps@) is None,
        },
    decreases e, 0int,
{
    match e {
        Expr::MethodCall { receiver, method, args } => {
            if is_ident(receiver, "session") {
                if ts {
                    return Some("undefined".to_owned());
                }
                if same(method, "login") {
                    let id = emit_arg(args, 0, ts, eps, "String::new()");
                    return Some(cat3("session_login(&(", &id, "))"));
                }
                if same(method, "logout") {
                    return Some("session_logout()".to_owned());
                }
                return Some(cat3("session_", method, "()"));
            }
            if is_ident(receiver, "db") {
                let sql = emit_arg(args, 0, ts, eps, "\"\"");
                let params = pg_params(args, eps);
                let head = if same(method, "exec") {
                    "db_exec(&("
                } else {
                    "db_query(&("
                };
                return Some(cat5(head, &sql, "), ", &params, ")"));
            }
            if is_ident(receiver, "log") {
                let a = emit_arg(args, 0, ts, eps, "\"\"");
                return if ts {
                    Some(cat5("console.", method, "(", &a, ")"))
                } else {
                    Some(
                        cat5(
                            "eprintln!(\"{{\\\"level\\\":\\\"",
                            method,
                            "\\\",\\\"msg\\\":{}}}\", json_str(&(",
                            &a,
                            ")))",
                        ),
                    )
                };
            }
            if let Expr::Ident(n) = &**receiver {
                if eps.contains(n) {
                    if ts {
                        return Some("\"\"".to_owned());
                    }
                    let path = emit_arg(args, 0, ts, eps, "String::new()");
                    let base = endpoint_base(n);
                    let bearer = endpoint_bearer(n);
                    if same(method, "post") {
                        let body = emit_arg(args, 1, ts, eps, "String::new()");
                        return Some(
                            cat9(
                                "http_post(",
                                &base,
                                ", &(",
                                &path,
                                "), &(",
                                &body,
                                "), &",
                                &bearer,
                                ")",
                            ),
                        );
                    }
                    return Some(cat7("http_get(", &base, ", &(", &path, "), &", &bearer, ")"));
                }
            }
            None
        },
        _ => None,
    }
}

/// The name of the constant that holds an endpoint's host.
pub fn endpoint_base(n: &str) -> (r: String)
    ensures
        r@ == endpoint_base_text(n@),
{
    cat3("__EP_", &uppercase(n), "_BASE")
}

/// The call that yields an endpoint's bearer token.
pub fn endpoint_bearer(n: &str) -> (r: String)
    ensures
        r@ == endpoint_bearer_text(n@),
{
    cat3("__ep_", &lowercase(n), "_bearer()")
}

/// Prints a method call for a tier.
fn emit_method(e: &Expr, ts: bool, eps: &Parts) -> (r: String)
    ensures
        r@ == method_text(*e, ts, eps@),
    decreases e, 1int,
{
    match e {
        Expr::MethodCall { receiver, method, args } => {
            if let Some(t) = emit_builtin_method(e, ts, eps) {
                return t;
            }
            let recv = emit_expr(receiver, ts, eps);
            if same(method, "or") && args.len() == 1 {
                let d = emit_arg(args, 0, ts, eps, "");
                return if ts {
                    cat5("(", &recv, " ?? ", &d, ")")
                } else {
                    cat4(&recv, ".clone().unwrap_or(", &d, ")")
                };
            }
            if same(method, "map") && args.len() == 1 {
                let c = emit_arg(args, 0, ts, eps, "");
                return if ts {
                    cat4(&recv, ".map(", &c, ")")
                } else {
                    cat4(&recv, ".clone().into_iter().map(", &c, ").collect::<Vec<_>>()")
                };
            }
            if same(method, "filter") && args.len() == 1 {
                let c = emit_arg(args, 0, ts, eps, "");
                return if ts {
                    cat4(&recv, ".filter(", &c, ")")
                } else {
                    cat4(&recv, ".clone().into_iter().filter(", &c, ").collect::<Vec<_>>()")
                };
            }
            if same(method, "reduce") && args.len() == 2 {
                let init = emit_arg(args, 0, ts, eps, "");
                let c = emit_arg(args, 1, ts, eps, "");
                return if ts {
                    cat6(&recv, ".reduce(", &c, ", ", &init, ")")
                } else {
                    cat6(&recv, ".clone().into_iter().fold(", &init, ", ", &c, ")")
                };
            }
            let a = emit_exprs(args, ts, eps);
            if let Some(t) = emit_string_method(&recv, method, &a, ts) {
                return t;
            }
            if let Some(t) = emit_list_method(&recv, method, &a, ts) {
                return t;
            }
            cat6(&recv, ".", method, "(", &a.join(", "), ")")
        },
        _ => String::new(),
    }
}

} // verus!
