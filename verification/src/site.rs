//! Where a request to a program's own server goes: to a function, to a route of an `api`, to the front
//! page, or to a file.
use vstd::prelude::*;
use vstd::string::*;

use crate::ast::{ApiNode, ApiRoute, EnvModifier, FunctionNode, ScreenNode, XeresProgram};
use crate::client::{default_screen, is_navigable, path_of, path_text};
use crate::server::default_name;
use crate::text::{cat2, has_prefix, same, starts_with};

verus! {

/// The index of the first server function among the first `n` that a path calls.
pub open spec fn rpc_index(fs: Seq<FunctionNode>, n: int, path: Seq<char>) -> Option<int>
    decreases n,
{
    if n <= 0 || n > fs.len() {
        None
    } else {
        match rpc_index(fs, n - 1, path) {
            Some(i) => Some(i),
            None => if fs[n - 1].env == EnvModifier::Server && "/__xeres/"@ + fs[n - 1].name@ == path {
                Some(n - 1)
            } else {
                None
            },
        }
    }
}

/// The server function that a path calls.
pub fn find_rpc(p: &XeresProgram, path: &str) -> (r: Option<usize>)
    ensures
        match r {
            Some(i) => i < p.functions@.len() && rpc_index(
                p.functions@,
                p.functions@.len() as int,
                path@,
            ) == Some(i as int),
            None => rpc_index(p.functions@, p.functions@.len() as int, path@) is None,
        },
{
    let mut found: Option<usize> = None;
    let mut i: usize = 0;
    while i < p.functions.len()
        invariant
            i <= p.functions.len(),
            match found {
                Some(k) => k < i && rpc_index(p.functions@, i as int, path@) == Some(k as int),
                None => rpc_index(p.functions@, i as int, path@) is None,
            },
        decreases p.functions.len() - i,
    {
        let f = &p.functions[i];
        if found.is_none() && f.env == EnvModifier::Server && same(&cat2("/__xeres/", &f.name), path) {
            found = Some(i);
        }
        i = i + 1;
    }
    found
}

/// The index of the first route among the first `n` under a base with this method and path.
pub open spec fn route_index(
    base: Seq<char>,
    routes: Seq<ApiRoute>,
    n: int,
    method: Seq<char>,
    path: Seq<char>,
) -> Option<int>
    decreases n,
{
    if n <= 0 || n > routes.len() {
        None
    } else {
        match route_index(base, routes, n - 1, method, path) {
            Some(i) => Some(i),
            None => if routes[n - 1].method@ == method && base + routes[n - 1].path@ == path {
                Some(n - 1)
            } else {
                None
            },
        }
    }
}

fn find_route(api: &ApiNode, method: &str, path: &str) -> (r: Option<usize>)
    ensures
        match r {
            Some(i) => i < api.routes@.len() && route_index(
                api.base@,
                api.routes@,
                api.routes@.len() as int,
                method@,
                path@,
            ) == Some(i as int),
            None => route_index(api.base@, api.routes@, api.routes@.len() as int, method@, path@) is None,
        },
{
    let mut found: Option<usize> = None;
    let mut i: usize = 0;
    while i < api.routes.len()
        invariant
            i <= api.routes.len(),
            match found {
                Some(k) => k < i && route_index(api.base@, api.routes@, i as int, method@, path@)
                    == Some(k as int),
                None => route_index(api.base@, api.routes@, i as int, method@, path@) is None,
            },
        decreases api.routes.len() - i,
    {
        let route = &api.routes[i];
        if found.is_none() && same(&route.method, method) && same(
            &cat2(&api.base, &route.path),
            path,
        ) {
            found = Some(i);
        }
        i = i + 1;
    }
    found
}

/// The first route of the first `n` APIs with this method and path: the API's index and its own.
pub open spec fn api_index(apis: Seq<ApiNode>, n: int, method: Seq<char>, path: Seq<char>) -> Option<
    (int, int),
>
    decreases n,
{
    if n <= 0 || n > apis.len() {
        None
    } else {
        match api_index(apis, n - 1, method, path) {
            Some(at) => Some(at),
            None => match route_index(
                apis[n - 1].base@,
                apis[n - 1].routes@,
                apis[n - 1].routes@.len() as int,
                method,
                path,
            ) {
                Some(k) => Some((n - 1, k)),
                None => None,
            },
        }
    }
}

fn find_api(apis: &Vec<ApiNode>, method: &str, path: &str) -> (r: Option<(usize, usize)>)
    ensures
        match r {
            Some(at) => at.0 < apis@.len() && at.1 < apis@[at.0 as int].routes@.len() && api_index(
                apis@,
                apis@.len() as int,
                method@,
                path@,
            ) == Some((at.0 as int, at.1 as int)),
            None => api_index(apis@, apis@.len() as int, method@, path@) is None,
        },
{
    let mut found: Option<(usize, usize)> = None;
    let mut i: usize = 0;
    while i < apis.len()
        invariant
            i <= apis.len(),
            match found {
                Some(at) => at.0 < i && at.1 < apis@[at.0 as int].routes@.len() && api_index(
                    apis@,
                    i as int,
                    method@,
                    path@,
                ) == Some((at.0 as int, at.1 as int)),
                None => api_index(apis@, i as int, method@, path@) is None,
            },
        decreases apis.len() - i,
    {
        if found.is_none() {
            if let Some(k) = find_route(&apis[i], method, path) {
                found = Some((i, k));
            }
        }
        i = i + 1;
    }
    found
}

/// Whether a path stands under the base of a declared API.
pub open spec fn under_base(apis: Seq<ApiNode>, path: Seq<char>) -> bool {
    exists|i: int| 0 <= i < apis.len() && has_prefix(path, #[trigger] apis[i].base@)
}

fn is_under_base(apis: &Vec<ApiNode>, path: &str) -> (r: bool)
    ensures
        r == under_base(apis@, path@),
{
    let mut i: usize = 0;
    while i < apis.len()
        invariant
            i <= apis.len(),
            forall|j: int| 0 <= j < i ==> !has_prefix(path@, #[trigger] apis@[j].base@),
        decreases apis.len() - i,
    {
        if starts_with(path, &apis[i].base) {
            assert(has_prefix(path@, apis@[i as int].base@));
            return true;
        }
        i = i + 1;
    }
    false
}

/// Whether a path is that of an `auth` screen.
pub open spec fn is_protected(screens: Seq<ScreenNode>, path: Seq<char>) -> bool {
    exists|i: int|
        0 <= i < screens.len() && is_navigable(#[trigger] screens[i]) && screens[i].is_auth
            && path_text(screens[i].name@, default_name(screens)) == path
}

/// Whether a path is that of an `auth` screen.
pub fn is_protected_path(screens: &Vec<ScreenNode>, path: &str) -> (r: bool)
    ensures
        r == is_protected(screens@, path@),
{
    let default = match default_screen(screens) {
        Some(i) => screens[i].name.clone(),
        None => "".to_owned(),
    };
    let mut i: usize = 0;
    while i < screens.len()
        invariant
            i <= screens.len(),
            default@ == default_name(screens@),
            forall|j: int|
                0 <= j < i ==> !(is_navigable(#[trigger] screens@[j]) && screens@[j].is_auth
                    && path_text(screens@[j].name@, default@) == path@),
        decreases screens.len() - i,
    {
        let sc = &screens[i];
        if !sc.is_component && sc.params.len() == 0 && sc.is_auth && same(
            &path_of(&sc.name, &default),
            path,
        ) {
            assert(is_navigable(screens@[i as int]));
            return true;
        }
        i = i + 1;
    }
    false
}

/// Where a request goes that calls no function and syncs no collection.
#[derive(Debug, Clone, Copy, PartialEq, Eq, Structural)]
pub enum Target {
    /// A route, by the index of its API and its own.
    Route(usize, usize),
    /// Nowhere: the path stands under an API's base, and no route has it.
    NotFound,
    /// The front page: the path is protected, and nobody is signed in.
    FrontPage,
    /// A file.
    File,
}

/// Where a request goes that calls no function and syncs no collection. An API comes first, then the
/// guard of the protected paths, then the files.
pub fn target(p: &XeresProgram, method: &str, path: &str, signed_in: bool) -> (r: Target)
    ensures
        match api_index(p.apis@, p.apis@.len() as int, method@, path@) {
            Some(at) => r is Route && r->Route_0 == at.0 && r->Route_1 == at.1 && at.0
                < p.apis@.len() && at.1 < p.apis@[at.0].routes@.len(),
            None => r == if under_base(p.apis@, path@) {
                Target::NotFound
            } else if method@ == "GET"@ && !signed_in && is_protected(p.screens@, path@) {
                Target::FrontPage
            } else {
                Target::File
            },
        },
{
    if let Some(at) = find_api(&p.apis, method, path) {
        return Target::Route(at.0, at.1);
    }
    if is_under_base(&p.apis, path) {
        Target::NotFound
    } else if same(method, "GET") && !signed_in && is_protected_path(&p.screens, path) {
        Target::FrontPage
    } else {
        Target::File
    }
}

} // verus!
