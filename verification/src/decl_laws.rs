//! What an accepted program declares: each name once, and no type that is not declared.
use vstd::prelude::*;
use vstd::string::*;

use crate::analysis::{
    endpoints_diags, enums_diags, field_types_diags, fields_diags, functions_diags, model_types_diags,
    models_diags, param_types_diags, screen_names_diags, signatures_diags, styles_diags, variants_diags,
};
use crate::ast::{
    EndpointNode, EnumNode, FunctionNode, ModelNode, Param, PropertyNode, ScreenNode, StyleNode, XeresProgram,
};
use crate::boundary::accepted;
use crate::sound_laws::{lemma_list_type, lemma_optional_type};
use crate::table::known_type;
use crate::type_laws::maybe;
use crate::types::generic_inner_spec;

verus! {

/// Whether no two names of a list are the same.
pub open spec fn are_distinct(names: Seq<Seq<char>>) -> bool {
    forall|i: int, j: int| 0 <= i < j < names.len() ==> #[trigger] names[i] != #[trigger] names[j]
}

proof fn lemma_function_names(list: Seq<FunctionNode>, n: int, i: int, j: int)
    requires
        0 <= i < j < n <= list.len(),
        functions_diags(list, n).len() == 0,
    ensures
        list[i].name@ != list[j].name@,
    decreases n,
{
    if j < n - 1 {
        lemma_function_names(list, n - 1, i, j);
    }
}

proof fn lemma_model_names(list: Seq<ModelNode>, n: int, i: int, j: int)
    requires
        0 <= i < j < n <= list.len(),
        models_diags(list, n).len() == 0,
    ensures
        list[i].name@ != list[j].name@,
    decreases n,
{
    if j < n - 1 {
        lemma_model_names(list, n - 1, i, j);
    }
}

proof fn lemma_enum_names(list: Seq<EnumNode>, n: int, i: int, j: int)
    requires
        0 <= i < j < n <= list.len(),
        enums_diags(list, n).len() == 0,
    ensures
        list[i].name@ != list[j].name@,
    decreases n,
{
    if j < n - 1 {
        lemma_enum_names(list, n - 1, i, j);
    }
}

proof fn lemma_screen_names(list: Seq<ScreenNode>, n: int, i: int, j: int)
    requires
        0 <= i < j < n <= list.len(),
        screen_names_diags(list, n).len() == 0,
    ensures
        list[i].name@ != list[j].name@,
    decreases n,
{
    if j < n - 1 {
        lemma_screen_names(list, n - 1, i, j);
    }
}

proof fn lemma_endpoint_names(list: Seq<EndpointNode>, n: int, i: int, j: int)
    requires
        0 <= i < j < n <= list.len(),
        endpoints_diags(list, n).len() == 0,
    ensures
        list[i].name@ != list[j].name@,
    decreases n,
{
    if j < n - 1 {
        lemma_endpoint_names(list, n - 1, i, j);
    }
}

proof fn lemma_style_names(list: Seq<StyleNode>, n: int, i: int, j: int)
    requires
        0 <= i < j < n <= list.len(),
        styles_diags(list, n).len() == 0,
    ensures
        list[i].name@ != list[j].name@,
    decreases n,
{
    if j < n - 1 {
        lemma_style_names(list, n - 1, i, j);
    }
}

proof fn lemma_field_names(list: Seq<PropertyNode>, n: int, i: int, j: int, model: Seq<char>)
    requires
        0 <= i < j < n <= list.len(),
        fields_diags(list, n, model).len() == 0,
    ensures
        list[i].name@ != list[j].name@,
    decreases n,
{
    if j < n - 1 {
        lemma_field_names(list, n - 1, i, j, model);
    }
}

proof fn lemma_variant_names(list: Seq<String>, n: int, i: int, j: int, name: Seq<char>, line: nat)
    requires
        0 <= i < j < n <= list.len(),
        variants_diags(list, n, name, line).len() == 0,
    ensures
        list[i]@ != list[j]@,
    decreases n,
{
    if j < n - 1 {
        lemma_variant_names(list, n - 1, i, j, name, line);
    }
}

proof fn lemma_model_part(list: Seq<ModelNode>, n: int, k: int)
    requires
        0 <= k < n <= list.len(),
        models_diags(list, n).len() == 0,
    ensures
        fields_diags(list[k].properties@, list[k].properties@.len() as int, list[k].name@).len() == 0,
    decreases n,
{
    if k < n - 1 {
        lemma_model_part(list, n - 1, k);
    }
}

proof fn lemma_enum_part(list: Seq<EnumNode>, n: int, k: int)
    requires
        0 <= k < n <= list.len(),
        enums_diags(list, n).len() == 0,
    ensures
        variants_diags(list[k].variants@, list[k].variants@.len() as int, list[k].name@, list[k].line as nat).len()
            == 0,
    decreases n,
{
    if k < n - 1 {
        lemma_enum_part(list, n - 1, k);
    }
}

/// In an accepted program no two functions have one name, nor two models, two enums, two screens, two
/// endpoints or two styles.
pub proof fn law_accepted_names_are_distinct(p: XeresProgram)
    requires
        accepted(p),
    ensures
        are_distinct(p.functions@.map_values(|x: FunctionNode| x.name@)),
        are_distinct(p.models@.map_values(|x: ModelNode| x.name@)),
        are_distinct(p.enums@.map_values(|x: EnumNode| x.name@)),
        are_distinct(p.screens@.map_values(|x: ScreenNode| x.name@)),
        are_distinct(p.endpoints@.map_values(|x: EndpointNode| x.name@)),
        are_distinct(p.styles@.map_values(|x: StyleNode| x.name@)),
{
    let functions = p.functions@.map_values(|x: FunctionNode| x.name@);
    assert forall|i: int, j: int| 0 <= i < j < functions.len() implies #[trigger] functions[i]
        != #[trigger] functions[j] by {
        lemma_function_names(p.functions@, p.functions@.len() as int, i, j);
    }
    let models = p.models@.map_values(|x: ModelNode| x.name@);
    assert forall|i: int, j: int| 0 <= i < j < models.len() implies #[trigger] models[i] != #[trigger] models[j] by {
        lemma_model_names(p.models@, p.models@.len() as int, i, j);
    }
    let enums = p.enums@.map_values(|x: EnumNode| x.name@);
    assert forall|i: int, j: int| 0 <= i < j < enums.len() implies #[trigger] enums[i] != #[trigger] enums[j] by {
        lemma_enum_names(p.enums@, p.enums@.len() as int, i, j);
    }
    let screens = p.screens@.map_values(|x: ScreenNode| x.name@);
    assert forall|i: int, j: int| 0 <= i < j < screens.len() implies #[trigger] screens[i] != #[trigger] screens[j] by {
        lemma_screen_names(p.screens@, p.screens@.len() as int, i, j);
    }
    let endpoints = p.endpoints@.map_values(|x: EndpointNode| x.name@);
    assert forall|i: int, j: int| 0 <= i < j < endpoints.len() implies #[trigger] endpoints[i]
        != #[trigger] endpoints[j] by {
        lemma_endpoint_names(p.endpoints@, p.endpoints@.len() as int, i, j);
    }
    let styles = p.styles@.map_values(|x: StyleNode| x.name@);
    assert forall|i: int, j: int| 0 <= i < j < styles.len() implies #[trigger] styles[i] != #[trigger] styles[j] by {
        lemma_style_names(p.styles@, p.styles@.len() as int, i, j);
    }
}

/// In an accepted program no two fields of a model have one name, nor two variants of an enum.
pub proof fn law_accepted_members_are_distinct(p: XeresProgram, k: int, i: int, j: int)
    requires
        accepted(p),
    ensures
        0 <= k < p.models@.len() && 0 <= i < j < p.models@[k].properties@.len() ==> p.models@[k].properties@[i].name@
            != p.models@[k].properties@[j].name@,
        0 <= k < p.enums@.len() && 0 <= i < j < p.enums@[k].variants@.len() ==> p.enums@[k].variants@[i]@
            != p.enums@[k].variants@[j]@,
{
    if 0 <= k < p.models@.len() && 0 <= i < j < p.models@[k].properties@.len() {
        let m = p.models@[k];
        lemma_model_part(p.models@, p.models@.len() as int, k);
        lemma_field_names(m.properties@, m.properties@.len() as int, i, j, m.name@);
    }
    if 0 <= k < p.enums@.len() && 0 <= i < j < p.enums@[k].variants@.len() {
        let e = p.enums@[k];
        lemma_enum_part(p.enums@, p.enums@.len() as int, k);
        lemma_variant_names(e.variants@, e.variants@.len() as int, i, j, e.name@, e.line as nat);
    }
}

/// Functions of distinct names are none of them reported as declared twice.
pub proof fn law_distinct_functions_are_not_reported(list: Seq<FunctionNode>, n: int)
    requires
        are_distinct(list.map_values(|x: FunctionNode| x.name@)),
        0 <= n <= list.len(),
    ensures
        functions_diags(list, n).len() == 0,
    decreases n,
{
    if n > 0 {
        law_distinct_functions_are_not_reported(list, n - 1);
        let names = list.map_values(|x: FunctionNode| x.name@);
        assert forall|i: int| 0 <= i < n - 1 implies (#[trigger] list[i]).name@ != list[n - 1].name@ by {
            assert(names[i] != names[n - 1]);
        }
    }
}

/// The type of a list.
pub open spec fn many(t: Seq<char>) -> Seq<char> {
    "List<"@ + t + ">"@
}

/// Whether a set of type names holds the builtin types, the declared models and enums, and every list and
/// every optional of one of its own.
pub open spec fn holds_declared(r: spec_fn(Seq<char>) -> bool, p: XeresProgram) -> bool {
    &&& r("String"@) && r("Int"@) && r("Float"@) && r("Bool"@) && r("DateTime"@) && r("Decimal"@)
    &&& forall|i: int| 0 <= i < p.models@.len() ==> r((#[trigger] p.models@[i]).name@)
    &&& forall|i: int| 0 <= i < p.enums@.len() ==> r((#[trigger] p.enums@[i]).name@)
    &&& forall|t: Seq<char>| r(t) ==> r(#[trigger] many(t))
    &&& forall|t: Seq<char>| r(t) ==> r(#[trigger] maybe(t))
}

proof fn lemma_made(base: Seq<char>, t: Seq<char>)
    requires
        generic_inner_spec(base, t) is Some,
    ensures
        t == base + "<"@ + generic_inner_spec(base, t)->0 + ">"@,
        generic_inner_spec(base, t)->0.len() < t.len(),
{
    reveal_strlit("<");
    reveal_strlit(">");
    let n = base.len() as int;
    assert(t.subrange(0, n) == base);
    assert(t =~= t.subrange(0, n) + "<"@ + t.subrange(n + 1, t.len() - 1) + ">"@);
}

proof fn lemma_heads()
    ensures
        "List"@ + "<"@ == "List<"@,
        "Optional"@ + "<"@ == "Optional<"@,
{
    reveal_strlit("<");
    reveal_strlit("List");
    reveal_strlit("List<");
    reveal_strlit("Optional");
    reveal_strlit("Optional<");
    assert("List"@ + "<"@ =~= "List<"@);
    assert("Optional"@ + "<"@ =~= "Optional<"@);
}

proof fn lemma_found_model(list: Seq<ModelNode>, t: Seq<char>)
    ensures
        crate::table::model_index(list, t) matches Some(i) ==> 0 <= i < list.len() && list[i].name@ == t,
    decreases list.len(),
{
    if list.len() > 0 {
        lemma_found_model(list.drop_last(), t);
        lemma_found_model(list.drop_first(), t);
    }
}

proof fn lemma_found_enum(list: Seq<EnumNode>, t: Seq<char>)
    ensures
        crate::table::enumeration_index(list, t) matches Some(i) ==> 0 <= i < list.len() && list[i].name@ == t,
    decreases list.len(),
{
    if list.len() > 0 {
        lemma_found_enum(list.drop_last(), t);
        lemma_found_enum(list.drop_first(), t);
    }
}

/// A known type is in every set of type names that holds what is declared: nothing else is known.
pub proof fn law_known_types_are_declared(r: spec_fn(Seq<char>) -> bool, t: Seq<char>, p: XeresProgram)
    requires
        holds_declared(r, p),
        known_type(t, p),
    ensures
        r(t),
    decreases t.len(),
{
    lemma_heads();
    if let Some(inner) = generic_inner_spec("List"@, t) {
        lemma_made("List"@, t);
        law_known_types_are_declared(r, inner, p);
        assert(t == many(inner));
    } else if let Some(inner) = generic_inner_spec("Optional"@, t) {
        lemma_made("Optional"@, t);
        law_known_types_are_declared(r, inner, p);
        assert(t == maybe(inner));
    } else {
        lemma_found_model(p.models@, t);
        lemma_found_enum(p.enums@, t);
    }
}

/// The builtin types are known, and so is every list and every optional of a known type.
pub proof fn law_known_types_are_built(t: Seq<char>, p: XeresProgram)
    ensures
        known_type("String"@, p) && known_type("Int"@, p) && known_type("Float"@, p) && known_type("Bool"@, p)
            && known_type("DateTime"@, p) && known_type("Decimal"@, p),
        known_type(t, p) ==> known_type(many(t), p) && known_type(maybe(t), p),
{
    reveal_strlit("List");
    reveal_strlit("Optional");
    reveal_strlit("String");
    reveal_strlit("Int");
    reveal_strlit("Float");
    reveal_strlit("Bool");
    reveal_strlit("DateTime");
    reveal_strlit("Decimal");
    lemma_list_type(t);
    lemma_optional_type(t);
    let d = maybe(t);
    lemma_list_type(d);
    reveal_strlit("Optional<");
    assert(d[0] == 'O');
    assert("String"@.last() == 'g' && "Int"@.last() == 't' && "Float"@.last() == 't' && "Bool"@.last() == 'l'
        && "DateTime"@.last() == 'e' && "Decimal"@.last() == 'l');
}

proof fn lemma_model_is_found(list: Seq<ModelNode>, i: int)
    requires
        0 <= i < list.len(),
    ensures
        crate::table::model_index(list, list[i].name@) is Some,
    decreases list.len(),
{
    if i < list.len() - 1 {
        lemma_model_is_found(list.drop_last(), i);
    }
}

proof fn lemma_enum_is_found(list: Seq<EnumNode>, i: int)
    requires
        0 <= i < list.len(),
    ensures
        crate::table::enumeration_index(list, list[i].name@) is Some,
    decreases list.len(),
{
    if i < list.len() - 1 {
        lemma_enum_is_found(list.drop_last(), i);
    }
}

/// Whether a type is neither a list nor an optional.
pub open spec fn is_bare(t: Seq<char>) -> bool {
    generic_inner_spec("List"@, t) is None && generic_inner_spec("Optional"@, t) is None
}

/// A declared model is known by its name, and so is a declared enum.
pub proof fn law_declared_types_are_known(p: XeresProgram, i: int)
    ensures
        0 <= i < p.models@.len() && is_bare(p.models@[i].name@) ==> known_type(p.models@[i].name@, p),
        0 <= i < p.enums@.len() && is_bare(p.enums@[i].name@) ==> known_type(p.enums@[i].name@, p),
{
    if 0 <= i < p.models@.len() {
        lemma_model_is_found(p.models@, i);
    }
    if 0 <= i < p.enums@.len() {
        lemma_enum_is_found(p.enums@, i);
    }
}

proof fn lemma_field_type(list: Seq<PropertyNode>, n: int, model: Seq<char>, p: XeresProgram, k: int)
    requires
        0 <= k < n <= list.len(),
        field_types_diags(list, n, model, p).len() == 0,
    ensures
        known_type(list[k].data_type@, p),
    decreases n,
{
    if k < n - 1 {
        lemma_field_type(list, n - 1, model, p, k);
    }
}

proof fn lemma_model_types(list: Seq<ModelNode>, n: int, p: XeresProgram, k: int)
    requires
        0 <= k < n <= list.len(),
        model_types_diags(list, n, p).len() == 0,
    ensures
        field_types_diags(list[k].properties@, list[k].properties@.len() as int, list[k].name@, p).len() == 0,
    decreases n,
{
    if k < n - 1 {
        lemma_model_types(list, n - 1, p, k);
    }
}

proof fn lemma_param_type(list: Seq<Param>, n: int, name: Seq<char>, line: nat, p: XeresProgram, k: int)
    requires
        0 <= k < n <= list.len(),
        param_types_diags(list, n, name, line, p).len() == 0,
    ensures
        known_type(list[k].ty@, p),
    decreases n,
{
    if k < n - 1 {
        lemma_param_type(list, n - 1, name, line, p, k);
    }
}

proof fn lemma_signature(list: Seq<FunctionNode>, n: int, p: XeresProgram, k: int)
    requires
        0 <= k < n <= list.len(),
        signatures_diags(list, n, p).len() == 0,
    ensures
        param_types_diags(
            list[k].params@,
            list[k].params@.len() as int,
            list[k].name@,
            list[k].line as nat,
            p,
        ).len() == 0,
        list[k].return_type matches Some(t) ==> known_type(t@, p),
    decreases n,
{
    if k < n - 1 {
        lemma_signature(list, n - 1, p, k);
    }
}

/// In an accepted program every field of a model, every parameter and every result of a function is of a type
/// that is builtin or declared, or a list or an optional of such a type.
pub proof fn law_accepted_types_are_declared(
    r: spec_fn(Seq<char>) -> bool,
    p: XeresProgram,
    k: int,
    i: int,
)
    requires
        accepted(p),
        holds_declared(r, p),
    ensures
        0 <= k < p.models@.len() && 0 <= i < p.models@[k].properties@.len() ==> r(
            p.models@[k].properties@[i].data_type@,
        ),
        0 <= k < p.functions@.len() && 0 <= i < p.functions@[k].params@.len() ==> r(p.functions@[k].params@[i].ty@),
        0 <= k < p.functions@.len() && p.functions@[k].return_type is Some ==> r(
            p.functions@[k].return_type->0@,
        ),
{
    if 0 <= k < p.models@.len() && 0 <= i < p.models@[k].properties@.len() {
        let m = p.models@[k];
        lemma_model_types(p.models@, p.models@.len() as int, p, k);
        lemma_field_type(m.properties@, m.properties@.len() as int, m.name@, p, i);
        law_known_types_are_declared(r, m.properties@[i].data_type@, p);
    }
    if 0 <= k < p.functions@.len() {
        let f = p.functions@[k];
        lemma_signature(p.functions@, p.functions@.len() as int, p, k);
        if 0 <= i < f.params@.len() {
            lemma_param_type(f.params@, f.params@.len() as int, f.name@, f.line as nat, p, i);
            law_known_types_are_declared(r, f.params@[i].ty@, p);
        }
        if let Some(t) = f.return_type {
            law_known_types_are_declared(r, t@, p);
        }
    }
}

} // verus!
