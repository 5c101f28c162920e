//! The wire codec of generated servers: Rust expressions that decode JSON into a type, and
//! that serialize a value for the wire.
use vstd::prelude::*;
use vstd::string::*;

use crate::ast::{find_model, lemma_model_index, model_index, EnumNode, ModelNode, PropertyNode};
use crate::num::{nat_text, u128_text, usize_text};
use crate::text::{cat2, cat3, cat4, cat5, cat7, join_text, same, Parts};
use crate::types::{generic_inner, generic_inner_spec};

verus! {

/// Whether decoding a type comes to an end within `fuel` nested models.
pub open spec fn decodable(models: Seq<ModelNode>, ty: Seq<char>, fuel: nat) -> bool
    decreases fuel, ty.len(),
{
    match generic_inner_spec("List"@, ty) {
        Some(inner) => decodable(models, inner, fuel),
        None => match generic_inner_spec("Optional"@, ty) {
            Some(inner) => decodable(models, inner, fuel),
            None => match model_index(models, ty) {
                Some(i) => fuel > 0 && forall|j: int|
                    0 <= j < models[i].properties@.len() ==> decodable(
                        models,
                        (#[trigger] models[i].properties@[j]).data_type@,
                        (fuel - 1) as nat,
                    ),
                None => true,
            },
        },
    }
}

/// With more models to nest, decoding that comes to an end still does.
pub proof fn law_decoding_ends_with_more(models: Seq<ModelNode>, ty: Seq<char>, fuel: nat, more: nat)
    requires
        decodable(models, ty, fuel),
        fuel <= more,
    ensures
        decodable(models, ty, more),
    decreases fuel, ty.len(),
{
    match generic_inner_spec("List"@, ty) {
        Some(inner) => {
            law_decoding_ends_with_more(models, inner, fuel, more);
        },
        None => match generic_inner_spec("Optional"@, ty) {
            Some(inner) => {
                law_decoding_ends_with_more(models, inner, fuel, more);
            },
            None => {
                if let Some(i) = model_index(models, ty) {
                    let props = models[i].properties@;
                    assert forall|j: int| 0 <= j < props.len() implies decodable(
                        models,
                        (#[trigger] props[j]).data_type@,
                        (more - 1) as nat,
                    ) by {
                        law_decoding_ends_with_more(
                            models,
                            props[j].data_type@,
                            (fuel - 1) as nat,
                            (more - 1) as nat,
                        );
                    }
                }
            },
        },
    }
}

/// Whether decoding a type comes to an end within `fuel` nested models, and not within fewer.
spec fn ends_at(models: Seq<ModelNode>, ty: Seq<char>, fuel: nat) -> bool {
    decodable(models, ty, fuel) && (fuel == 0 || !decodable(models, ty, (fuel - 1) as nat))
}

/// Whether decoding the model at an index comes to an end within `fuel` nested models, and not within
/// fewer.
spec fn model_ends_at(models: Seq<ModelNode>, i: int, fuel: nat) -> bool {
    &&& 0 <= i < models.len()
    &&& generic_inner_spec("List"@, models[i].name@) is None
    &&& generic_inner_spec("Optional"@, models[i].name@) is None
    &&& model_index(models, models[i].name@) == Some(i)
    &&& ends_at(models, models[i].name@, fuel)
}

proof fn lemma_ends_at_model(models: Seq<ModelNode>, ty: Seq<char>, fuel: nat) -> (i: int)
    requires
        fuel > 0,
        ends_at(models, ty, fuel),
    ensures
        model_ends_at(models, i, fuel),
    decreases ty.len(),
{
    match generic_inner_spec("List"@, ty) {
        Some(inner) => lemma_ends_at_model(models, inner, fuel),
        None => match generic_inner_spec("Optional"@, ty) {
            Some(inner) => lemma_ends_at_model(models, inner, fuel),
            None => {
                lemma_model_index(models, ty);
                let i = model_index(models, ty)->0;
                assert(models[i].name@ == ty);
                i
            },
        },
    }
}

proof fn lemma_model_below(models: Seq<ModelNode>, i: int, fuel: nat) -> (k: int)
    requires
        fuel > 1,
        model_ends_at(models, i, fuel),
    ensures
        model_ends_at(models, k, (fuel - 1) as nat),
{
    let props = models[i].properties@;
    let less = (fuel - 1) as nat;
    assert(!decodable(models, models[i].name@, less));
    let j = choose|j: int|
        0 <= j < props.len() && !decodable(
            models,
            (#[trigger] props[j]).data_type@,
            (less - 1) as nat,
        );
    assert(decodable(models, props[j].data_type@, less));
    lemma_ends_at_model(models, props[j].data_type@, less)
}

/// The models that come to an end within one nested model, two, and so on up to `fuel`.
proof fn lemma_model_chain(models: Seq<ModelNode>, i: int, fuel: nat) -> (chain: Seq<int>)
    requires
        fuel > 0,
        model_ends_at(models, i, fuel),
    ensures
        chain.len() == fuel,
        forall|k: int| 0 <= k < fuel ==> model_ends_at(models, #[trigger] chain[k], (k + 1) as nat),
    decreases fuel,
{
    if fuel == 1 {
        seq![i]
    } else {
        let below = lemma_model_below(models, i, fuel);
        let rest = lemma_model_chain(models, below, (fuel - 1) as nat);
        rest.push(i)
    }
}

proof fn lemma_fuel_bound(models: Seq<ModelNode>, ty: Seq<char>, fuel: nat)
    requires
        ends_at(models, ty, fuel),
    ensures
        fuel <= models.len(),
{
    if fuel > 0 {
        let i = lemma_ends_at_model(models, ty, fuel);
        let chain = lemma_model_chain(models, i, fuel);
        assert forall|a: int, b: int| 0 <= a < b < chain.len() implies chain[a] != chain[b] by {
            if chain[a] == chain[b] {
                law_decoding_ends_with_more(
                    models,
                    models[chain[a]].name@,
                    (a + 1) as nat,
                    b as nat,
                );
                assert(model_ends_at(models, chain[b], (b + 1) as nat));
            }
        }
        assert(chain.no_duplicates());
        chain.unique_seq_to_set();
        let all = vstd::set_lib::set_int_range(0, models.len() as int);
        vstd::set_lib::lemma_int_range(0, models.len() as int);
        assert(chain.to_set().subset_of(all)) by {
            assert forall|x: int| chain.to_set().contains(x) implies all.contains(x) by {
                let k = choose|k: int| 0 <= k < chain.len() && chain[k] == x;
                assert(model_ends_at(models, chain[k], (k + 1) as nat));
            }
        }
        vstd::set_lib::lemma_len_subset(chain.to_set(), all);
    }
}

/// Decoding that comes to an end at all does so within as many nested models as there are.
pub proof fn law_decoding_ends_within_the_models(models: Seq<ModelNode>, ty: Seq<char>, fuel: nat)
    requires
        decodable(models, ty, fuel),
    ensures
        decodable(models, ty, models.len()),
    decreases fuel,
{
    if fuel > 0 && decodable(models, ty, (fuel - 1) as nat) {
        law_decoding_ends_within_the_models(models, ty, (fuel - 1) as nat);
    } else {
        lemma_fuel_bound(models, ty, fuel);
        law_decoding_ends_with_more(models, ty, fuel, models.len());
    }
}

/// Whether a type is an enum's name.
pub open spec fn is_enum(enums: Seq<EnumNode>, ty: Seq<char>) -> bool {
    exists|i: int| 0 <= i < enums.len() && (#[trigger] enums[i]).name@ == ty
}

/// Whether a type is an enum's name.
pub fn enum_named(enums: &Vec<EnumNode>, ty: &str) -> (r: bool)
    ensures
        r == is_enum(enums@, ty@),
{
    let mut i: usize = 0;
    while i < enums.len()
        invariant
            i <= enums.len(),
            forall|j: int| 0 <= j < i ==> (#[trigger] enums@[j]).name@ != ty@,
        decreases enums.len() - i,
    {
        if same(&enums[i].name, ty) {
            return true;
        }
        i = i + 1;
    }
    false
}

/// The Rust expression that decodes the JSON value `src` (an `Option<&J>`) into `ty`. An absent
/// value gives the type's default. `depth` keeps the bound names of nested levels apart, and
/// `fuel` bounds how many models nest.
pub open spec fn decode_text(
    src: Seq<char>,
    ty: Seq<char>,
    models: Seq<ModelNode>,
    enums: Seq<EnumNode>,
    depth: nat,
    fuel: nat,
) -> Seq<char>
    decreases 2 * fuel, ty.len(), 0int,
{
    match generic_inner_spec("List"@, ty) {
        Some(inner) => {
            let ev = "__e"@ + nat_text(depth);
            "(match "@ + src + " { Some(J::Arr(__v)) => __v.iter().map(|"@ + ev + "| "@
                + decode_text("Some("@ + ev + ")"@, inner, models, enums, depth + 1, fuel)
                + ").collect::<Vec<_>>(), _ => Vec::new() })"@
        },
        None => match generic_inner_spec("Optional"@, ty) {
            Some(inner) => "(match "@ + src + " { None | Some(J::Null) => None, __s => Some("@
                + decode_text("__s"@, inner, models, enums, depth + 1, fuel) + ") })"@,
            None => match model_index(models, ty) {
                Some(i) => if fuel == 0 {
                    Seq::empty()
                } else {
                    ty + " { "@ + join_text(
                        decode_fields_text(
                            src,
                            models[i].properties@,
                            models[i].properties@.len() as int,
                            models,
                            enums,
                            depth,
                            (fuel - 1) as nat,
                        ),
                        ", "@,
                    ) + " }"@
                },
                None => if ty == "String"@ || ty == "Decimal"@ || is_enum(enums, ty) {
                    src + ".map(|__v| __v.as_string()).unwrap_or_default()"@
                } else if ty == "Float"@ {
                    src + ".and_then(|__v| __v.as_f64()).unwrap_or(0.0)"@
                } else if ty == "Bool"@ {
                    src + ".map(|__v| __v.as_bool()).unwrap_or_default()"@
                } else {
                    src + ".map(|__v| __v.as_i64()).unwrap_or_default()"@
                },
            },
        },
    }
}

/// The decoders of a model's first `n` fields.
pub open spec fn decode_fields_text(
    src: Seq<char>,
    props: Seq<PropertyNode>,
    n: int,
    models: Seq<ModelNode>,
    enums: Seq<EnumNode>,
    depth: nat,
    fuel: nat,
) -> Seq<Seq<char>>
    decreases 2 * fuel + 1, 0nat, n,
{
    if n <= 0 || n > props.len() {
        Seq::empty()
    } else {
        let ov = "__o"@ + nat_text(depth);
        let fsrc = src + ".and_then(|"@ + ov + "| "@ + ov + ".get(\""@ + props[n - 1].name@
            + "\"))"@;
        decode_fields_text(src, props, n - 1, models, enums, depth, fuel).push(
            props[n - 1].name@ + ": "@ + decode_text(
                fsrc,
                props[n - 1].data_type@,
                models,
                enums,
                depth + 1,
                fuel,
            ),
        )
    }
}

fn decode_fields(
    src: &str,
    props: &Vec<PropertyNode>,
    models: &Vec<ModelNode>,
    enums: &Vec<EnumNode>,
    depth: u128,
    fuel: usize,
) -> (r: Parts)
    requires
        depth + fuel * 0x1_0000_0000_0000_0000 + 0x1_0000_0000_0000_0000 <= u128::MAX,
        forall|j: int|
            0 <= j < props@.len() ==> decodable(
                models@,
                (#[trigger] props@[j]).data_type@,
                fuel as nat,
            ),
    ensures
        r@ == decode_fields_text(
            src@,
            props@,
            props@.len() as int,
            models@,
            enums@,
            depth as nat,
            fuel as nat,
        ),
    decreases 2 * fuel + 1, 0nat, 0int,
{
    let mut out = Parts::new();
    let ov = cat2("__o", &u128_text(depth));
    let mut i: usize = 0;
    while i < props.len()
        invariant
            i <= props.len(),
            ov@ == "__o"@ + nat_text(depth as nat),
            depth + fuel * 0x1_0000_0000_0000_0000 + 0x1_0000_0000_0000_0000 <= u128::MAX,
            forall|j: int|
                0 <= j < props@.len() ==> decodable(
                    models@,
                    (#[trigger] props@[j]).data_type@,
                    fuel as nat,
                ),
            out@ == decode_fields_text(
                src@,
                props@,
                i as int,
                models@,
                enums@,
                depth as nat,
                fuel as nat,
            ),
        decreases props.len() - i,
    {
        let n: usize = props[i].data_type.as_str().unicode_len();
        let fsrc = cat7(src, ".and_then(|", &ov, "| ", &ov, ".get(\"", &props[i].name);
        let fsrc = cat2(&fsrc, "\"))");
        let d = decode_at(&fsrc, &props[i].data_type, models, enums, depth + 1, fuel);
        out.push(cat3(&props[i].name, ": ", &d));
        i = i + 1;
    }
    out
}

fn decode_at(
    src: &str,
    ty: &str,
    models: &Vec<ModelNode>,
    enums: &Vec<EnumNode>,
    depth: u128,
    fuel: usize,
) -> (r: String)
    requires
        depth + fuel * 0x1_0000_0000_0000_0000 + ty@.len() <= u128::MAX,
        decodable(models@, ty@, fuel as nat),
    ensures
        r@ == decode_text(src@, ty@, models@, enums@, depth as nat, fuel as nat),
    decreases 2 * fuel, ty@.len(), 0int,
{
    if let Some(inner) = generic_inner("List", ty) {
        let ev = cat2("__e", &u128_text(depth));
        let esrc = cat3("Some(", &ev, ")");
        let elem = decode_at(&esrc, inner, models, enums, depth + 1, fuel);
        return cat7(
            "(match ",
            src,
            " { Some(J::Arr(__v)) => __v.iter().map(|",
            &ev,
            "| ",
            &elem,
            ").collect::<Vec<_>>(), _ => Vec::new() })",
        );
    }
    if let Some(inner) = generic_inner("Optional", ty) {
        let dec = decode_at("__s", inner, models, enums, depth + 1, fuel);
        return cat5(
            "(match ",
            src,
            " { None | Some(J::Null) => None, __s => Some(",
            &dec,
            ") })",
        );
    }
    if let Some(m) = find_model(models, ty) {
        let fields = decode_fields(src, &m.properties, models, enums, depth, fuel - 1);
        return cat4(ty, " { ", &fields.join(", "), " }");
    }
    if same(ty, "String") || same(ty, "Decimal") || enum_named(enums, ty) {
        cat2(src, ".map(|__v| __v.as_string()).unwrap_or_default()")
    } else if same(ty, "Float") {
        cat2(src, ".and_then(|__v| __v.as_f64()).unwrap_or(0.0)")
    } else if same(ty, "Bool") {
        cat2(src, ".map(|__v| __v.as_bool()).unwrap_or_default()")
    } else {
        cat2(src, ".map(|__v| __v.as_i64()).unwrap_or_default()")
    }
}

/// The Rust expression that decodes the JSON value `src` into `ty`, from the outermost level.
pub fn decode_json_rust(
    src: &str,
    ty: &str,
    models: &Vec<ModelNode>,
    enums: &Vec<EnumNode>,
) -> (r: String)
    requires
        decodable(models@, ty@, models@.len()),
    ensures
        r@ == decode_text(src@, ty@, models@, enums@, 0, models@.len()),
{
    let n: usize = ty.unicode_len();
    let fuel: usize = models.len();
    assert(fuel * 0x1_0000_0000_0000_0000 + n <= u128::MAX);
    decode_at(src, ty, models, enums, 0, fuel)
}

/// The Rust expression that decodes argument `i` of a remote call from the JSON array `__a`.
pub open spec fn arg_extractor_text(
    i: nat,
    ty: Seq<char>,
    models: Seq<ModelNode>,
    enums: Seq<EnumNode>,
) -> Seq<char> {
    decode_text("__a.idx("@ + nat_text(i) + ")"@, ty, models, enums, 0, models.len())
}

/// The Rust expression that decodes argument `i` of a remote call from the JSON array `__a`.
pub fn arg_extractor(i: usize, ty: &str, models: &Vec<ModelNode>, enums: &Vec<EnumNode>) -> (r:
    String)
    requires
        decodable(models@, ty@, models@.len()),
    ensures
        r@ == arg_extractor_text(i as nat, ty@, models@, enums@),
{
    decode_json_rust(&cat3("__a.idx(", &usize_text(i), ")"), ty, models, enums)
}

/// The Rust expression (a `String`) that serializes `path` of type `ty` for the wire. A model
/// goes through its own codec, which leaves its secret fields out.
pub open spec fn wire_text(path: Seq<char>, ty: Seq<char>, models: Seq<ModelNode>) -> Seq<char>
    decreases ty.len(),
{
    match generic_inner_spec("List"@, ty) {
        Some(inner) => "{ let __v: Vec<String> = "@ + path + ".iter().map(|__it| "@ + wire_text(
            "__it"@,
            inner,
            models,
        ) + ").collect(); format!(\"[{}]\", __v.join(\",\")) }"@,
        None => match generic_inner_spec("Optional"@, ty) {
            Some(inner) => "match &"@ + path + " { Some(__o) => "@ + wire_text(
                "__o"@,
                inner,
                models,
            ) + ", None => String::from(\"null\") }"@,
            None => if model_index(models, ty) is Some {
                path + ".to_wire_json()"@
            } else if ty == "Int"@ || ty == "Float"@ || ty == "Bool"@ || ty == "DateTime"@ {
                path + ".to_string()"@
            } else {
                "json_str(&"@ + path + ")"@
            },
        },
    }
}

/// The Rust expression (a `String`) that serializes `path` of type `ty` for the wire.
pub fn wire_serialize(path: &str, ty: &str, models: &Vec<ModelNode>) -> (r: String)
    ensures
        r@ == wire_text(path@, ty@, models@),
    decreases ty@.len(),
{
    if let Some(inner) = generic_inner("List", ty) {
        let item = wire_serialize("__it", inner, models);
        return cat5(
            "{ let __v: Vec<String> = ",
            path,
            ".iter().map(|__it| ",
            &item,
            ").collect(); format!(\"[{}]\", __v.join(\",\")) }",
        );
    }
    if let Some(inner) = generic_inner("Optional", ty) {
        let item = wire_serialize("__o", inner, models);
        return cat5(
            "match &",
            path,
            " { Some(__o) => ",
            &item,
            ", None => String::from(\"null\") }",
        );
    }
    match find_model(models, ty) {
        Some(_) => cat2(path, ".to_wire_json()"),
        None => if same(ty, "Int") || same(ty, "Float") || same(ty, "Bool") || same(
            ty,
            "DateTime",
        ) {
            cat2(path, ".to_string()")
        } else {
            cat3("json_str(&", path, ")")
        },
    }
}

/// Whether decoding a type comes to an end within `fuel` nested models.
pub fn is_decodable(models: &Vec<ModelNode>, ty: &str, fuel: usize) -> (r: bool)
    ensures
        r == decodable(models@, ty@, fuel as nat),
    decreases fuel, ty@.len(),
{
    if let Some(inner) = generic_inner("List", ty) {
        return is_decodable(models, inner, fuel);
    }
    if let Some(inner) = generic_inner("Optional", ty) {
        return is_decodable(models, inner, fuel);
    }
    match find_model(models, ty) {
        None => true,
        Some(m) => {
            if fuel == 0 {
                return false;
            }
            let mut j: usize = 0;
            while j < m.properties.len()
                invariant
                    j <= m.properties.len(),
                    fuel > 0,
                    model_index(models@, ty@) is Some,
                    *m == models@[model_index(models@, ty@)->0],
                    generic_inner_spec("List"@, ty@) is None,
                    generic_inner_spec("Optional"@, ty@) is None,
                    forall|k: int|
                        0 <= k < j ==> decodable(
                            models@,
                            (#[trigger] m.properties@[k]).data_type@,
                            (fuel - 1) as nat,
                        ),
                decreases m.properties.len() - j,
            {
                if !is_decodable(models, &m.properties[j].data_type, fuel - 1) {
                    proof {
                        let i = model_index(models@, ty@)->0;
                        assert(*m == models@[i]);
                        assert(!decodable(
                            models@,
                            models@[i].properties@[j as int].data_type@,
                            (fuel - 1) as nat,
                        ));
                    }
                    return false;
                }
                j = j + 1;
            }
            true
        },
    }
}

} // verus!
