//! The symbol table: what each name of a program stands for. Where a name is declared more than
//! once, the last declaration counts.
use vstd::prelude::*;

use crate::ast::{
    BinOp, EndpointNode, EnumNode, EnvModifier, FunctionNode, ModelNode, ScreenNode, StyleNode,
    SyncedStateNode, ThemeNode, XeresProgram,
};
use crate::text::same;
use crate::types::{generic_inner, generic_inner_spec};

verus! {

/// The index of the last model of this name.
pub open spec fn model_index(list: Seq<ModelNode>, name: Seq<char>) -> Option<int>
    decreases list.len(),
{
    if list.len() == 0 {
        None
    } else if list.last().name@ == name {
        Some(list.len() - 1)
    } else {
        model_index(list.drop_last(), name)
    }
}

/// The model that a name stands for.
pub open spec fn model_of(p: XeresProgram, name: Seq<char>) -> Option<ModelNode> {
    match model_index(p.models@, name) {
        Some(i) => Some(p.models@[i]),
        None => None,
    }
}

/// The model that a name stands for.
pub fn get_model<'a>(p: &'a XeresProgram, name: &str) -> (r: Option<&'a ModelNode>)
    ensures
        match r {
            Some(x) => model_of(*p, name@) == Some(*x),
            None => model_of(*p, name@) is None,
        },
{
    let n: usize = p.models.len();
    let mut i: usize = n;
    proof {
        assert(p.models@.take(n as int) =~= p.models@);
    }
    while i > 0
        invariant
            i <= n,
            n == p.models@.len(),
            model_index(p.models@, name@) == model_index(p.models@.take(i as int), name@),
        decreases i,
    {
        let ghost t = p.models@.take(i as int);
        i = i - 1;
        proof {
            assert(t.drop_last() =~= p.models@.take(i as int));
            assert(t.last() == p.models@[i as int]);
        }
        if same(&p.models[i].name, name) {
            return Some(&p.models[i]);
        }
    }
    None
}

/// The index of the last enum of this name.
pub open spec fn enumeration_index(list: Seq<EnumNode>, name: Seq<char>) -> Option<int>
    decreases list.len(),
{
    if list.len() == 0 {
        None
    } else if list.last().name@ == name {
        Some(list.len() - 1)
    } else {
        enumeration_index(list.drop_last(), name)
    }
}

/// The enum that a name stands for.
pub open spec fn enumeration_of(p: XeresProgram, name: Seq<char>) -> Option<EnumNode> {
    match enumeration_index(p.enums@, name) {
        Some(i) => Some(p.enums@[i]),
        None => None,
    }
}

/// The enum that a name stands for.
pub fn get_enumeration<'a>(p: &'a XeresProgram, name: &str) -> (r: Option<&'a EnumNode>)
    ensures
        match r {
            Some(x) => enumeration_of(*p, name@) == Some(*x),
            None => enumeration_of(*p, name@) is None,
        },
{
    let n: usize = p.enums.len();
    let mut i: usize = n;
    proof {
        assert(p.enums@.take(n as int) =~= p.enums@);
    }
    while i > 0
        invariant
            i <= n,
            n == p.enums@.len(),
            enumeration_index(p.enums@, name@) == enumeration_index(p.enums@.take(i as int), name@),
        decreases i,
    {
        let ghost t = p.enums@.take(i as int);
        i = i - 1;
        proof {
            assert(t.drop_last() =~= p.enums@.take(i as int));
            assert(t.last() == p.enums@[i as int]);
        }
        if same(&p.enums[i].name, name) {
            return Some(&p.enums[i]);
        }
    }
    None
}

/// The index of the last function of this name.
pub open spec fn function_index(list: Seq<FunctionNode>, name: Seq<char>) -> Option<int>
    decreases list.len(),
{
    if list.len() == 0 {
        None
    } else if list.last().name@ == name {
        Some(list.len() - 1)
    } else {
        function_index(list.drop_last(), name)
    }
}

/// The function that a name stands for.
pub open spec fn function_of(p: XeresProgram, name: Seq<char>) -> Option<FunctionNode> {
    match function_index(p.functions@, name) {
        Some(i) => Some(p.functions@[i]),
        None => None,
    }
}

/// The function that a name stands for.
pub fn get_function<'a>(p: &'a XeresProgram, name: &str) -> (r: Option<&'a FunctionNode>)
    ensures
        match r {
            Some(x) => function_of(*p, name@) == Some(*x),
            None => function_of(*p, name@) is None,
        },
{
    let n: usize = p.functions.len();
    let mut i: usize = n;
    proof {
        assert(p.functions@.take(n as int) =~= p.functions@);
    }
    while i > 0
        invariant
            i <= n,
            n == p.functions@.len(),
            function_index(p.functions@, name@) == function_index(p.functions@.take(i as int), name@),
        decreases i,
    {
        let ghost t = p.functions@.take(i as int);
        i = i - 1;
        proof {
            assert(t.drop_last() =~= p.functions@.take(i as int));
            assert(t.last() == p.functions@[i as int]);
        }
        if same(&p.functions[i].name, name) {
            return Some(&p.functions[i]);
        }
    }
    None
}

/// The index of the last synced collection of this name.
pub open spec fn collection_index(list: Seq<SyncedStateNode>, name: Seq<char>) -> Option<int>
    decreases list.len(),
{
    if list.len() == 0 {
        None
    } else if list.last().name@ == name {
        Some(list.len() - 1)
    } else {
        collection_index(list.drop_last(), name)
    }
}

/// The synced collection that a name stands for.
pub open spec fn collection_of(p: XeresProgram, name: Seq<char>) -> Option<SyncedStateNode> {
    match collection_index(p.states@, name) {
        Some(i) => Some(p.states@[i]),
        None => None,
    }
}

/// The synced collection that a name stands for.
pub fn get_collection<'a>(p: &'a XeresProgram, name: &str) -> (r: Option<&'a SyncedStateNode>)
    ensures
        match r {
            Some(x) => collection_of(*p, name@) == Some(*x),
            None => collection_of(*p, name@) is None,
        },
{
    let n: usize = p.states.len();
    let mut i: usize = n;
    proof {
        assert(p.states@.take(n as int) =~= p.states@);
    }
    while i > 0
        invariant
            i <= n,
            n == p.states@.len(),
            collection_index(p.states@, name@) == collection_index(p.states@.take(i as int), name@),
        decreases i,
    {
        let ghost t = p.states@.take(i as int);
        i = i - 1;
        proof {
            assert(t.drop_last() =~= p.states@.take(i as int));
            assert(t.last() == p.states@[i as int]);
        }
        if same(&p.states[i].name, name) {
            return Some(&p.states[i]);
        }
    }
    None
}

/// The index of the last endpoint of this name.
pub open spec fn endpoint_index(list: Seq<EndpointNode>, name: Seq<char>) -> Option<int>
    decreases list.len(),
{
    if list.len() == 0 {
        None
    } else if list.last().name@ == name {
        Some(list.len() - 1)
    } else {
        endpoint_index(list.drop_last(), name)
    }
}

/// The endpoint that a name stands for.
pub open spec fn endpoint_of(p: XeresProgram, name: Seq<char>) -> Option<EndpointNode> {
    match endpoint_index(p.endpoints@, name) {
        Some(i) => Some(p.endpoints@[i]),
        None => None,
    }
}

/// The endpoint that a name stands for.
pub fn get_endpoint<'a>(p: &'a XeresProgram, name: &str) -> (r: Option<&'a EndpointNode>)
    ensures
        match r {
            Some(x) => endpoint_of(*p, name@) == Some(*x),
            None => endpoint_of(*p, name@) is None,
        },
{
    let n: usize = p.endpoints.len();
    let mut i: usize = n;
    proof {
        assert(p.endpoints@.take(n as int) =~= p.endpoints@);
    }
    while i > 0
        invariant
            i <= n,
            n == p.endpoints@.len(),
            endpoint_index(p.endpoints@, name@) == endpoint_index(p.endpoints@.take(i as int), name@),
        decreases i,
    {
        let ghost t = p.endpoints@.take(i as int);
        i = i - 1;
        proof {
            assert(t.drop_last() =~= p.endpoints@.take(i as int));
            assert(t.last() == p.endpoints@[i as int]);
        }
        if same(&p.endpoints[i].name, name) {
            return Some(&p.endpoints[i]);
        }
    }
    None
}

/// The index of the last component of this name.
pub open spec fn component_index(list: Seq<ScreenNode>, name: Seq<char>) -> Option<int>
    decreases list.len(),
{
    if list.len() == 0 {
        None
    } else if list.last().is_component && list.last().name@ == name {
        Some(list.len() - 1)
    } else {
        component_index(list.drop_last(), name)
    }
}

/// The component that a name stands for.
pub open spec fn component_of(p: XeresProgram, name: Seq<char>) -> Option<ScreenNode> {
    match component_index(p.screens@, name) {
        Some(i) => Some(p.screens@[i]),
        None => None,
    }
}

/// The component that a name stands for.
pub fn get_component<'a>(p: &'a XeresProgram, name: &str) -> (r: Option<&'a ScreenNode>)
    ensures
        match r {
            Some(x) => component_of(*p, name@) == Some(*x),
            None => component_of(*p, name@) is None,
        },
{
    let n: usize = p.screens.len();
    let mut i: usize = n;
    proof {
        assert(p.screens@.take(n as int) =~= p.screens@);
    }
    while i > 0
        invariant
            i <= n,
            n == p.screens@.len(),
            component_index(p.screens@, name@) == component_index(p.screens@.take(i as int), name@),
        decreases i,
    {
        let ghost t = p.screens@.take(i as int);
        i = i - 1;
        proof {
            assert(t.drop_last() =~= p.screens@.take(i as int));
            assert(t.last() == p.screens@[i as int]);
        }
        if p.screens[i].is_component && same(&p.screens[i].name, name) {
            return Some(&p.screens[i]);
        }
    }
    None
}

/// The index of the last screen of this name.
pub open spec fn screen_index(list: Seq<ScreenNode>, name: Seq<char>) -> Option<int>
    decreases list.len(),
{
    if list.len() == 0 {
        None
    } else if !list.last().is_component && list.last().name@ == name {
        Some(list.len() - 1)
    } else {
        screen_index(list.drop_last(), name)
    }
}

/// The screen that a name stands for.
pub open spec fn screen_of(p: XeresProgram, name: Seq<char>) -> Option<ScreenNode> {
    match screen_index(p.screens@, name) {
        Some(i) => Some(p.screens@[i]),
        None => None,
    }
}

/// The screen that a name stands for.
pub fn get_screen<'a>(p: &'a XeresProgram, name: &str) -> (r: Option<&'a ScreenNode>)
    ensures
        match r {
            Some(x) => screen_of(*p, name@) == Some(*x),
            None => screen_of(*p, name@) is None,
        },
{
    let n: usize = p.screens.len();
    let mut i: usize = n;
    proof {
        assert(p.screens@.take(n as int) =~= p.screens@);
    }
    while i > 0
        invariant
            i <= n,
            n == p.screens@.len(),
            screen_index(p.screens@, name@) == screen_index(p.screens@.take(i as int), name@),
        decreases i,
    {
        let ghost t = p.screens@.take(i as int);
        i = i - 1;
        proof {
            assert(t.drop_last() =~= p.screens@.take(i as int));
            assert(t.last() == p.screens@[i as int]);
        }
        if !p.screens[i].is_component && same(&p.screens[i].name, name) {
            return Some(&p.screens[i]);
        }
    }
    None
}

/// Whether a design token of this name is declared, in any theme.
pub open spec fn has_token(themes: Seq<ThemeNode>, name: Seq<char>) -> bool {
    exists|i: int, j: int|
        0 <= i < themes.len() && 0 <= j < themes[i].tokens@.len() && (
        #[trigger] themes[i].tokens@[j]).name@ == name
}

/// Whether a design token of this name is declared, in any theme.
pub fn token_declared(themes: &Vec<ThemeNode>, name: &str) -> (r: bool)
    ensures
        r == has_token(themes@, name@),
{
    let mut i: usize = 0;
    while i < themes.len()
        invariant
            i <= themes.len(),
            forall|k: int, j: int|
                0 <= k < i && 0 <= j < themes@[k].tokens@.len() ==> (
                #[trigger] themes@[k].tokens@[j]).name@ != name@,
        decreases themes.len() - i,
    {
        let mut j: usize = 0;
        while j < themes[i].tokens.len()
            invariant
                i < themes.len(),
                j <= themes@[i as int].tokens@.len(),
                forall|q: int|
                    0 <= q < j ==> (#[trigger] themes@[i as int].tokens@[q]).name@ != name@,
            decreases themes@[i as int].tokens@.len() - j,
        {
            if same(&themes[i].tokens[j].name, name) {
                proof {
                    assert(themes@[i as int].tokens@[j as int].name@ == name@);
                }
                return true;
            }
            j = j + 1;
        }
        i = i + 1;
    }
    false
}

/// Whether a named style of this name is declared.
pub open spec fn has_style(styles: Seq<StyleNode>, name: Seq<char>) -> bool {
    exists|i: int| 0 <= i < styles.len() && (#[trigger] styles[i]).name@ == name
}

/// Whether a named style of this name is declared.
pub fn style_declared(styles: &Vec<StyleNode>, name: &str) -> (r: bool)
    ensures
        r == has_style(styles@, name@),
{
    let mut i: usize = 0;
    while i < styles.len()
        invariant
            i <= styles.len(),
            forall|k: int| 0 <= k < i ==> (#[trigger] styles@[k]).name@ != name@,
        decreases styles.len() - i,
    {
        if same(&styles[i].name, name) {
            return true;
        }
        i = i + 1;
    }
    false
}

/// Whether a type is builtin.
pub open spec fn is_builtin_type(t: Seq<char>) -> bool {
    t == "String"@ || t == "Int"@ || t == "Float"@ || t == "Bool"@ || t == "DateTime"@ || t
        == "Decimal"@
}

/// Whether a type is known: builtin, a model, an enum, or a `List` or `Optional` of a known type.
pub open spec fn known_type(t: Seq<char>, p: XeresProgram) -> bool
    decreases t.len(),
{
    match generic_inner_spec("List"@, t) {
        Some(inner) => known_type(inner, p),
        None => match generic_inner_spec("Optional"@, t) {
            Some(inner) => known_type(inner, p),
            None => is_builtin_type(t) || model_of(p, t) is Some || enumeration_of(p, t) is Some,
        },
    }
}

/// Whether a type is known.
pub fn is_known_type(t: &str, p: &XeresProgram) -> (r: bool)
    ensures
        r == known_type(t@, *p),
    decreases t@.len(),
{
    if let Some(inner) = generic_inner("List", t) {
        return is_known_type(inner, p);
    }
    if let Some(inner) = generic_inner("Optional", t) {
        return is_known_type(inner, p);
    }
    same(t, "String") || same(t, "Int") || same(t, "Float") || same(t, "Bool") || same(
        t,
        "DateTime",
    ) || same(t, "Decimal") || get_model(p, t).is_some() || get_enumeration(p, t).is_some()
}

/// Whether a type, without one `List` or `Optional` around it, names a model.
pub open spec fn model_shaped(t: Seq<char>, p: XeresProgram) -> bool {
    let inner = match generic_inner_spec("List"@, t) {
        Some(x) => x,
        None => match generic_inner_spec("Optional"@, t) {
            Some(x) => x,
            None => t,
        },
    };
    model_of(p, inner) is Some
}

/// Whether a type, without one `List` or `Optional` around it, names a model.
pub fn is_model_shaped(t: &str, p: &XeresProgram) -> (r: bool)
    ensures
        r == model_shaped(t@, *p),
{
    let inner = match generic_inner("List", t) {
        Some(x) => x,
        None => match generic_inner("Optional", t) {
            Some(x) => x,
            None => t,
        },
    };
    get_model(p, inner).is_some()
}

/// Whether an operator yields a truth value.
pub open spec fn bool_op(op: BinOp) -> bool {
    match op {
        BinOp::Add | BinOp::Sub | BinOp::Mul | BinOp::Div => false,
        _ => true,
    }
}

/// Whether an operator yields a truth value.
pub fn is_bool_op(op: BinOp) -> (r: bool)
    ensures
        r == bool_op(op),
{
    match op {
        BinOp::Add | BinOp::Sub | BinOp::Mul | BinOp::Div => false,
        _ => true,
    }
}

/// Where a function runs, in words.
pub open spec fn env_text(e: EnvModifier) -> Seq<char> {
    match e {
        EnvModifier::Server => "server-side"@,
        EnvModifier::Ui => "in the browser"@,
        EnvModifier::Shared => "in an unspecified environment (may run client-side)"@,
    }
}

/// Where a function runs, in words.
pub fn env_label(e: EnvModifier) -> (r: &'static str)
    ensures
        r@ == env_text(e),
{
    match e {
        EnvModifier::Server => "server-side",
        EnvModifier::Ui => "in the browser",
        EnvModifier::Shared => "in an unspecified environment (may run client-side)",
    }
}

/// Type assignability: the same type, `Int` where a `Float` is declared, and `none` or a `T` where
/// an `Optional<T>` is.
pub open spec fn fits(actual: Seq<char>, declared: Seq<char>) -> bool
    decreases declared.len(),
{
    if actual == declared || (actual == "Int"@ && declared == "Float"@) {
        true
    } else {
        match generic_inner_spec("Optional"@, declared) {
            Some(inner) => actual == "None"@ || fits(actual, inner),
            None => false,
        }
    }
}

/// Type assignability.
pub fn type_compatible(actual: &str, declared: &str) -> (r: bool)
    ensures
        r == fits(actual@, declared@),
    decreases declared@.len(),
{
    if same(actual, declared) || (same(actual, "Int") && same(declared, "Float")) {
        return true;
    }
    match generic_inner("Optional", declared) {
        Some(inner) => same(actual, "None") || type_compatible(actual, inner),
        None => false,
    }
}

} // verus!
