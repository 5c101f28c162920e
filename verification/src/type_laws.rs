//! What assignability is for: it is the least order in which an `Int` is a `Float` and what is there, or
//! nothing, is optional; and a value of a type is a value of every type that it can be assigned to.
use vstd::prelude::*;
use vstd::string::*;

use crate::table::fits;
use crate::types::generic_inner_spec;
use crate::value::ValueView;

verus! {

/// The type of what may be missing.
pub open spec fn maybe(t: Seq<char>) -> Seq<char> {
    "Optional<"@ + t + ">"@
}

/// Whether a relation of type names is an order in which an `Int` is a `Float`, nothing is optional, and
/// so is what is there.
pub open spec fn assigns(r: spec_fn(Seq<char>, Seq<char>) -> bool) -> bool {
    &&& forall|t: Seq<char>| #[trigger] r(t, t)
    &&& forall|a: Seq<char>, b: Seq<char>, c: Seq<char>| #[trigger]
        r(a, b) && #[trigger] r(b, c) ==> r(a, c)
    &&& r("Int"@, "Float"@)
    &&& forall|t: Seq<char>| r("None"@, #[trigger] maybe(t))
    &&& forall|t: Seq<char>| r(t, #[trigger] maybe(t))
}

proof fn lemma_maybe(d: Seq<char>)
    ensures
        generic_inner_spec("Optional"@, d) matches Some(inner) ==> d == maybe(inner) && inner.len()
            < d.len(),
{
    reveal_strlit("Optional");
    reveal_strlit("Optional<");
    reveal_strlit(">");
    if let Some(inner) = generic_inner_spec("Optional"@, d) {
        assert(d.subrange(0, 8) =~= "Optional"@);
        assert forall|i: int| 0 <= i < 8 implies d[i] == "Optional<"@[i] by {
            assert(d.subrange(0, 8)[i] == d[i]);
        }
        assert(d =~= maybe(inner));
    }
}

proof fn lemma_inner_of_maybe(t: Seq<char>)
    ensures
        generic_inner_spec("Optional"@, maybe(t)) == Some(t),
{
    reveal_strlit("Optional");
    reveal_strlit("Optional<");
    reveal_strlit(">");
    let d = maybe(t);
    assert(d.subrange(0, 8) =~= "Optional"@);
    assert(d.subrange(9, d.len() - 1) =~= t);
}

proof fn lemma_not_optional(t: Seq<char>)
    requires
        t == "Int"@ || t == "Float"@ || t == "None"@,
    ensures
        generic_inner_spec("Optional"@, t) is None,
{
    reveal_strlit("Optional");
    reveal_strlit("Int");
    reveal_strlit("Float");
    reveal_strlit("None");
}

proof fn lemma_names_differ()
    ensures
        "Int"@ != "Float"@,
        "Int"@ != "None"@,
        "Float"@ != "None"@,
        "Bool"@ != "Int"@,
        "Bool"@ != "Float"@,
        "Bool"@ != "None"@,
        "String"@ != "Int"@,
        "String"@ != "Float"@,
        "String"@ != "None"@,
        "String"@ != "Bool"@,
        "Decimal"@ != "Int"@,
        "Decimal"@ != "Float"@,
        "Decimal"@ != "String"@,
        "Decimal"@ != "Bool"@,
        "Decimal"@ != "None"@,
        "DateTime"@ != "Int"@,
        "DateTime"@ != "Float"@,
        "DateTime"@ != "String"@,
        "DateTime"@ != "Bool"@,
        "DateTime"@ != "None"@,
        "DateTime"@ != "Decimal"@,
{
    reveal_strlit("Int");
    reveal_strlit("Float");
    reveal_strlit("None");
    reveal_strlit("Bool");
    reveal_strlit("String");
    reveal_strlit("Decimal");
    reveal_strlit("DateTime");
    assert("None"@[0] == 'N' && "Bool"@[0] == 'B');
    assert("Int"@.len() == 3 && "Float"@.len() == 5 && "String"@.len() == 6 && "Decimal"@.len() == 7
        && "DateTime"@.len() == 8);
}

proof fn lemma_transitive(a: Seq<char>, b: Seq<char>, c: Seq<char>)
    requires
        fits(a, b),
        fits(b, c),
    ensures
        fits(a, c),
    decreases c.len(),
{
    lemma_maybe(c);
    lemma_not_optional("Int"@);
    lemma_not_optional("None"@);
    lemma_names_differ();
    if b != c && !(b == "Int"@ && c == "Float"@) {
        let inner = generic_inner_spec("Optional"@, c)->0;
        if b != "None"@ {
            lemma_transitive(a, b, inner);
        } else {
            assert(a == "None"@);
        }
    }
}

/// Assignability is such an order.
pub proof fn law_assignability_is_an_order()
    ensures
        assigns(|a: Seq<char>, b: Seq<char>| fits(a, b)),
{
    let r = |a: Seq<char>, b: Seq<char>| fits(a, b);
    assert forall|a: Seq<char>, b: Seq<char>, c: Seq<char>| #[trigger]
        r(a, b) && #[trigger] r(b, c) implies r(a, c) by {
        lemma_transitive(a, b, c);
    }
    assert forall|t: Seq<char>| r("None"@, #[trigger] maybe(t)) by {
        lemma_inner_of_maybe(t);
    }
    assert forall|t: Seq<char>| r(t, #[trigger] maybe(t)) by {
        lemma_inner_of_maybe(t);
        assert(fits(t, t));
    }
}

/// It is the least one: what can be assigned can be in every such order.
pub proof fn law_assignability_is_the_least_order(
    r: spec_fn(Seq<char>, Seq<char>) -> bool,
    a: Seq<char>,
    d: Seq<char>,
)
    requires
        assigns(r),
        fits(a, d),
    ensures
        r(a, d),
    decreases d.len(),
{
    lemma_maybe(d);
    assert(r(d, d));
    if a != d && !(a == "Int"@ && d == "Float"@) {
        let inner = generic_inner_spec("Optional"@, d)->0;
        assert(r(inner, maybe(inner)));
        assert(r("None"@, maybe(inner)));
        if a != "None"@ {
            law_assignability_is_the_least_order(r, a, inner);
        }
    }
}

/// Two types that can be assigned to each other are one.
pub proof fn law_assignability_is_antisymmetric(a: Seq<char>, b: Seq<char>)
    requires
        fits(a, b),
        fits(b, a),
    ensures
        a == b,
{
    lemma_names_differ();
    lemma_not_optional("Int"@);
    lemma_not_optional("Float"@);
    lemma_not_optional("None"@);
    if a != b {
        lemma_length(a, b);
        lemma_length(b, a);
    }
}

proof fn lemma_length(a: Seq<char>, d: Seq<char>)
    requires
        fits(a, d),
        a != d,
    ensures
        a.len() < d.len() || a == "None"@ || (a == "Int"@ && d == "Float"@),
    decreases d.len(),
{
    lemma_maybe(d);
    reveal_strlit("Int");
    reveal_strlit("Float");
    if !(a == "Int"@ && d == "Float"@) && a != "None"@ {
        let inner = generic_inner_spec("Optional"@, d)->0;
        if a != inner {
            lemma_length(a, inner);
        }
    }
}

/// Whether a value is one of a type. Of a type that is no number, text, truth, list or optional, nothing
/// is said but that the value is there.
pub open spec fn inhabits(v: ValueView, t: Seq<char>) -> bool
    decreases t.len(),
{
    if t == "Int"@ || t == "DateTime"@ {
        v is Int
    } else if t == "Float"@ {
        v is Int || v is Float
    } else if t == "String"@ || t == "Decimal"@ {
        v is Str
    } else if t == "Bool"@ {
        v is Bool
    } else if t == "None"@ {
        v is Null
    } else {
        match generic_inner_spec("Optional"@, t) {
            Some(inner) => v is Null || inhabits(v, inner),
            None => match generic_inner_spec("List"@, t) {
                Some(_) => v is List,
                None => !(v is Null),
            },
        }
    }
}

/// A value of a type is a value of every type that the first can be assigned to.
pub proof fn law_assigned_value_is_of_the_declared_type(v: ValueView, a: Seq<char>, d: Seq<char>)
    requires
        fits(a, d),
        inhabits(v, a),
    ensures
        inhabits(v, d),
    decreases d.len(),
{
    lemma_maybe(d);
    lemma_names_differ();
    if a != d && !(a == "Int"@ && d == "Float"@) {
        let inner = generic_inner_spec("Optional"@, d)->0;
        lemma_plain(d);
        if a != "None"@ {
            law_assigned_value_is_of_the_declared_type(v, a, inner);
        }
    }
}

proof fn lemma_plain(d: Seq<char>)
    requires
        generic_inner_spec("Optional"@, d) is Some,
    ensures
        d != "Int"@,
        d != "Float"@,
        d != "String"@,
        d != "Decimal"@,
        d != "DateTime"@,
        d != "Bool"@,
        d != "None"@,
{
    reveal_strlit("Optional");
    reveal_strlit("Int");
    reveal_strlit("Float");
    reveal_strlit("None");
    reveal_strlit("Bool");
    reveal_strlit("String");
    reveal_strlit("Decimal");
    reveal_strlit("DateTime");
}

/// No fraction gets to where an integer is declared, and nothing but a number to where a fraction is: the
/// types that fit an `Int` are the `Int`, and those that fit a `Float` are `Float` and `Int`.
pub proof fn law_numbers_are_declared_widely_enough(a: Seq<char>)
    ensures
        fits(a, "Int"@) <==> a == "Int"@,
        fits(a, "Float"@) <==> a == "Float"@ || a == "Int"@,
        fits(a, "String"@) <==> a == "String"@,
        fits(a, "Bool"@) <==> a == "Bool"@,
        fits(a, "Decimal"@) <==> a == "Decimal"@,
        fits(a, "DateTime"@) <==> a == "DateTime"@,
{
    lemma_names_differ();
    lemma_not_optional("Int"@);
    lemma_not_optional("Float"@);
    if generic_inner_spec("Optional"@, "String"@) is Some {
        lemma_plain("String"@);
    }
    if generic_inner_spec("Optional"@, "Bool"@) is Some {
        lemma_plain("Bool"@);
    }
    if generic_inner_spec("Optional"@, "Decimal"@) is Some {
        lemma_plain("Decimal"@);
    }
    if generic_inner_spec("Optional"@, "DateTime"@) is Some {
        lemma_plain("DateTime"@);
    }
}

} // verus!
