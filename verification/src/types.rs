//! Type names: one-level generics and their spelling on each tier.
use vstd::prelude::*;
use vstd::string::*;

use crate::text::{cat2, cat3, has_prefix, same, starts_with};

verus! {

/// The inner type of a one-level generic: `generic_inner("List", "List<User>")` is `User`.
pub open spec fn generic_inner_spec(base: Seq<char>, ty: Seq<char>) -> Option<Seq<char>> {
    if has_prefix(ty, base) && ty.len() >= base.len() + 2 && ty[base.len() as int] == '<'
        && ty.last() == '>' {
        Some(ty.subrange(base.len() as int + 1, ty.len() - 1))
    } else {
        None
    }
}

/// The inner type of a one-level generic, or `None` where `ty` is not `base<...>`.
pub fn generic_inner<'a>(base: &str, ty: &'a str) -> (r: Option<&'a str>)
    ensures
        match r {
            Some(t) => generic_inner_spec(base@, ty@) == Some(t@),
            None => generic_inner_spec(base@, ty@) is None,
        },
{
    let n: usize = ty.unicode_len();
    let m: usize = base.unicode_len();
    if n < 2 || m > n - 2 {
        return None;
    }
    if starts_with(ty, base) && ty.get_char(m) == '<' && ty.get_char(n - 1) == '>' {
        Some(ty.substring_char(m + 1, n - 1))
    } else {
        None
    }
}

/// The Rust spelling of a type name.
pub open spec fn rust_type(name: Seq<char>) -> Seq<char>
    decreases name.len(),
{
    match generic_inner_spec("List"@, name) {
        Some(inner) => "Vec<"@ + rust_type(inner) + ">"@,
        None => match generic_inner_spec("Optional"@, name) {
            Some(inner) => "Option<"@ + rust_type(inner) + ">"@,
            None => if name == "String"@ || name == "Decimal"@ {
                "String"@
            } else if name == "Int"@ {
                "i64"@
            } else if name == "Float"@ {
                "f64"@
            } else if name == "Bool"@ {
                "bool"@
            } else if name == "DateTime"@ {
                "i64"@
            } else {
                name
            },
        },
    }
}

/// The TypeScript spelling of a type name.
pub open spec fn ts_type(name: Seq<char>) -> Seq<char>
    decreases name.len(),
{
    match generic_inner_spec("List"@, name) {
        Some(inner) => ts_type(inner) + "[]"@,
        None => match generic_inner_spec("Optional"@, name) {
            Some(inner) => "("@ + ts_type(inner) + " | null)"@,
            None => if name == "String"@ || name == "Decimal"@ {
                "string"@
            } else if name == "Int"@ || name == "Float"@ || name == "DateTime"@ {
                "number"@
            } else if name == "Bool"@ {
                "boolean"@
            } else {
                name
            },
        },
    }
}

/// The Rust spelling of a type name: `List<T>` is a `Vec`, `Optional<T>` an `Option`,
/// a `Decimal` a `String`, a `DateTime` an `i64`.
pub fn map_rust_type(name: &str) -> (r: String)
    ensures
        r@ == rust_type(name@),
    decreases name@.len(),
{
    if let Some(inner) = generic_inner("List", name) {
        return cat3("Vec<", &map_rust_type(inner), ">");
    }
    if let Some(inner) = generic_inner("Optional", name) {
        return cat3("Option<", &map_rust_type(inner), ">");
    }
    if same(name, "String") || same(name, "Decimal") {
        "String".to_owned()
    } else if same(name, "Int") {
        "i64".to_owned()
    } else if same(name, "Float") {
        "f64".to_owned()
    } else if same(name, "Bool") {
        "bool".to_owned()
    } else if same(name, "DateTime") {
        "i64".to_owned()
    } else {
        name.to_owned()
    }
}

/// The TypeScript spelling of a type name: `List<T>` is an array, `Optional<T>` a
/// union with `null`.
pub fn map_ts_type(name: &str) -> (r: String)
    ensures
        r@ == ts_type(name@),
    decreases name@.len(),
{
    if let Some(inner) = generic_inner("List", name) {
        return cat2(&map_ts_type(inner), "[]");
    }
    if let Some(inner) = generic_inner("Optional", name) {
        return cat3("(", &map_ts_type(inner), " | null)");
    }
    if same(name, "String") || same(name, "Decimal") {
        "string".to_owned()
    } else if same(name, "Int") || same(name, "Float") || same(name, "DateTime") {
        "number".to_owned()
    } else if same(name, "Bool") {
        "boolean".to_owned()
    } else {
        name.to_owned()
    }
}

} // verus!
