//! What holds of every run of the interpreter: more answers of the host do not change what a run has
//! come to, a run that waits has used all its answers, and it asks for no host but a declared one.
use vstd::prelude::*;

use crate::ast::{BinOp, EndpointNode, Expr, Stmt, XeresProgram};
use crate::builtin::{
    builtin_called, list_method_called, operated, text_method_called, EffectView, PlanView,
};
use crate::interp::{
    asked, begun, block_at, bound_params, call_at, chosen_arm, closed_at, closure_env, endpoint_at,
    endpoint_index, eval_at, evals_at, exec_at, field_of, fields_at, filter_at, filter_call, for_at,
    function_index, index_of, is_name, log_at, map_at, map_call, method_at, named_endpoint, query_at, reduce_at,
    reduce_call, returned, session_at, settled, shorter, sql_at, sql_params_at, stmt_at, token_of,
    truth, typed_at, typed_target, unary_of, value_method_at, while_at, Env, FlowView, Ran, StopView, TrackView, World,
};
use crate::resolve::opt_text;
use crate::value::ValueView;

verus! {

/// Whether a world is another with further answers.
pub open spec fn extends(w: World, v: World) -> bool {
    &&& v.program == w.program
    &&& v.actor == w.actor
    &&& v.key == w.key
    &&& w.replies.len() <= v.replies.len()
    &&& forall|i: int| 0 <= i < w.replies.len() ==> #[trigger] v.replies[i] == w.replies[i]
}

/// Whether a request goes to an endpoint: to its base and a path behind it, with its own token.
pub open spec fn goes_to(ep: EndpointNode, url: Seq<char>, token: Option<Seq<char>>) -> bool {
    &&& ep.base@.is_prefix_of(url)
    &&& token == token_of(ep)
}

/// Whether what is asked of the host leaves the machine, if at all, for a declared endpoint.
pub open spec fn lawful(p: XeresProgram, e: EffectView) -> bool {
    match e {
        EffectView::Get(url, token) => exists|k: int|
            0 <= k < p.endpoints@.len() && goes_to(#[trigger] p.endpoints@[k], url, token),
        EffectView::Post(url, _, token) => exists|k: int|
            0 <= k < p.endpoints@.len() && goes_to(#[trigger] p.endpoints@[k], url, token),
        _ => true,
    }
}

/// Whether a step that started here kept the rules: it has not gone back, it waits only where its
/// answers are used up and then for something lawful, and otherwise further answers do not change it.
pub open spec fn kept<T>(w: World, at: TrackView, r: Ran<T>, again: Ran<T>) -> bool {
    &&& at.pos <= r.at.pos <= w.replies.len()
    &&& match r.out {
        Err(StopView::Need(e)) => r.at.pos == w.replies.len() && lawful(w.program, e),
        _ => again == r,
    }
}

spec fn starts(w: World, v: World, at: TrackView) -> bool {
    extends(w, v) && 0 <= at.pos <= w.replies.len()
}

proof fn lemma_asked(w: World, v: World, e: EffectView, at: TrackView)
    requires
        starts(w, v, at),
        lawful(w.program, e),
    ensures
        kept(w, at, asked(w, e, at), asked(v, e, at)),
{
}

proof fn lemma_settled(w: World, v: World, p: PlanView, at: TrackView)
    requires
        starts(w, v, at),
        p matches PlanView::Ask(e) ==> lawful(w.program, e),
    ensures
        kept(w, at, settled(w, p, at), settled(v, p, at)),
{
}

spec fn stays(p: PlanView) -> bool {
    p matches PlanView::Ask(e) ==> !(e is Get) && !(e is Post)
}

proof fn lemma_operated(op: BinOp, a: ValueView, b: ValueView)
    ensures
        stays(operated(op, a, b)),
{
}

proof fn lemma_builtin(name: Seq<char>, args: Seq<ValueView>)
    ensures
        builtin_called(name, args) matches Some(p) ==> stays(p),
{
}

proof fn lemma_methods(s: Seq<char>, items: Seq<ValueView>, m: Seq<char>, vs: Seq<ValueView>)
    ensures
        stays(text_method_called(s, m, vs)),
        stays(list_method_called(items, m, vs)),
{
}

proof fn lemma_endpoint_index(es: Seq<EndpointNode>, n: int, name: Seq<char>)
    requires
        n <= es.len(),
    ensures
        endpoint_index(es, n, name) matches Some(i) ==> 0 <= i < n,
    decreases n,
{
    if n > 0 {
        lemma_endpoint_index(es, n - 1, name);
    }
}

proof fn lemma_eval(w: World, v: World, e: Expr, env: Env, at: TrackView, fuel: nat)
    requires
        starts(w, v, at),
    ensures
        kept(w, at, eval_at(w, e, env, at, fuel), eval_at(v, e, env, at, fuel)),
    decreases fuel, 0int, e, 2int, 0int,
{
    match e {
        Expr::Int(_) | Expr::Str(_) | Expr::Bool(_) | Expr::NoneLit | Expr::Ident(_) => {},
        Expr::Closure { .. } => {},
        Expr::Float(t) => {
            lemma_asked(w, v, EffectView::Numbers(seq![t@]), at);
        },
        Expr::Field { base, field } => {
            let r = eval_at(w, *base, env, at, fuel);
            lemma_eval(w, v, *base, env, at, fuel);
            if let Ok(x) = r.out {
                lemma_settled(w, v, field_of(x, field@), r.at);
            }
        },
        Expr::Unary { op, expr } => {
            let r = eval_at(w, *expr, env, at, fuel);
            lemma_eval(w, v, *expr, env, at, fuel);
            if let Ok(x) = r.out {
                lemma_settled(w, v, unary_of(op, x), r.at);
            }
        },
        Expr::Binary { op, left, right } => {
            let l = eval_at(w, *left, env, at, fuel);
            lemma_eval(w, v, *left, env, at, fuel);
            if let Ok(a) = l.out {
                let r = eval_at(w, *right, env, l.at, fuel);
                lemma_eval(w, v, *right, env, l.at, fuel);
                if let Ok(b) = r.out {
                    lemma_operated(op, a, b);
                    lemma_settled(w, v, operated(op, a, b), r.at);
                }
            }
        },
        Expr::Call { callee, args } => {
            let r = evals_at(w, args@, 0, env, at, fuel, Seq::empty());
            lemma_evals(w, v, args@, 0, env, at, fuel, Seq::empty());
            if let Ok(vs) = r.out {
                if fuel > 0 {
                    lemma_call(w, v, callee@, vs, r.at, (fuel - 1) as nat);
                }
            }
        },
        Expr::Declassify(inner) => {
            lemma_eval(w, v, *inner, env, at, fuel);
        },
        Expr::Raw(inner) => {
            lemma_eval(w, v, *inner, env, at, fuel);
        },
        Expr::Await(inner) => {
            lemma_eval(w, v, *inner, env, at, fuel);
        },
        Expr::Record { name, fields } => {
            lemma_fields(w, v, fields@, 0, env, at, fuel, Seq::empty());
        },
        Expr::ListLit(items) => {
            lemma_evals(w, v, items@, 0, env, at, fuel, Seq::empty());
        },
        Expr::Ternary { cond, yes, otherwise } => {
            let r = eval_at(w, *cond, env, at, fuel);
            lemma_eval(w, v, *cond, env, at, fuel);
            if let Ok(ValueView::Bool(b)) = r.out {
                if b {
                    lemma_eval(w, v, *yes, env, r.at, fuel);
                } else {
                    lemma_eval(w, v, *otherwise, env, r.at, fuel);
                }
            }
        },
        Expr::Range { start, end } => {
            let l = eval_at(w, *start, env, at, fuel);
            lemma_eval(w, v, *start, env, at, fuel);
            if l.out is Ok {
                lemma_eval(w, v, *end, env, l.at, fuel);
            }
        },
        Expr::Index { base, index } => {
            let l = eval_at(w, *base, env, at, fuel);
            lemma_eval(w, v, *base, env, at, fuel);
            if let Ok(b) = l.out {
                let r = eval_at(w, *index, env, l.at, fuel);
                lemma_eval(w, v, *index, env, l.at, fuel);
                if let Ok(i) = r.out {
                    lemma_settled(w, v, index_of(b, i), r.at);
                }
            }
        },
        Expr::MethodCall { .. } => {
            lemma_method(w, v, e, env, at, fuel);
        },
    }
}

proof fn lemma_evals(
    w: World,
    v: World,
    es: Seq<Expr>,
    i: int,
    env: Env,
    at: TrackView,
    fuel: nat,
    seen: Seq<ValueView>,
)
    requires
        starts(w, v, at),
    ensures
        kept(w, at, evals_at(w, es, i, env, at, fuel, seen), evals_at(v, es, i, env, at, fuel, seen)),
    decreases fuel, 0int, es, 0int, es.len() - i,
{
    if 0 <= i < es.len() {
        let r = eval_at(w, es[i], env, at, fuel);
        lemma_eval(w, v, es[i], env, at, fuel);
        if let Ok(x) = r.out {
            lemma_evals(w, v, es, i + 1, env, r.at, fuel, seen.push(x));
        }
    }
}

proof fn lemma_fields(
    w: World,
    v: World,
    fs: Seq<(String, Expr)>,
    i: int,
    env: Env,
    at: TrackView,
    fuel: nat,
    seen: Seq<(Seq<char>, ValueView)>,
)
    requires
        starts(w, v, at),
    ensures
        kept(w, at, fields_at(w, fs, i, env, at, fuel, seen), fields_at(v, fs, i, env, at, fuel, seen)),
    decreases fuel, 0int, fs, 0int, fs.len() - i,
{
    if 0 <= i < fs.len() {
        let r = eval_at(w, fs[i].1, env, at, fuel);
        lemma_eval(w, v, fs[i].1, env, at, fuel);
        if let Ok(x) = r.out {
            lemma_fields(w, v, fs, i + 1, env, r.at, fuel, seen.push((fs[i].0@, x)));
        }
    }
}

proof fn lemma_method(w: World, v: World, e: Expr, env: Env, at: TrackView, fuel: nat)
    requires
        starts(w, v, at),
    ensures
        kept(w, at, method_at(w, e, env, at, fuel), method_at(v, e, env, at, fuel)),
    decreases fuel, 0int, e, 1int, 0int,
{
    if let Expr::MethodCall { receiver, method, args } = e {
        if is_name(*receiver, "session"@) {
            lemma_session(w, v, method@, args@, env, at, fuel);
        } else if is_name(*receiver, "log"@) {
            lemma_log(w, v, method@, args@, env, at, fuel);
        } else if named_endpoint(w.program, *receiver) is Some {
            let es = w.program.endpoints@;
            lemma_endpoint_index(es, es.len() as int, receiver->Ident_0@);
            lemma_endpoint(
                w,
                v,
                named_endpoint(w.program, *receiver)->0,
                method@,
                args@,
                env,
                at,
                fuel,
            );
        } else if is_name(*receiver, "db"@) && method@ == "exec"@ {
            lemma_exec(w, v, args@, env, at, fuel);
        } else {
            let r = eval_at(w, *receiver, env, at, fuel);
            lemma_eval(w, v, *receiver, env, at, fuel);
            if let Ok(x) = r.out {
                lemma_value_method(w, v, x, method@, args@, env, r.at, fuel);
            }
        }
    }
}

proof fn lemma_value_method(
    w: World,
    v: World,
    recv: ValueView,
    method: Seq<char>,
    args: Seq<Expr>,
    env: Env,
    at: TrackView,
    fuel: nat,
)
    requires
        starts(w, v, at),
    ensures
        kept(
            w,
            at,
            value_method_at(w, recv, method, args, env, at, fuel),
            value_method_at(v, recv, method, args, env, at, fuel),
        ),
    decreases fuel, 0int, args, 1int, 0int,
{
    if method == "or"@ {
        if recv is Null && args.len() > 0 {
            lemma_eval(w, v, args[0], env, at, fuel);
        }
    } else {
        match recv {
            ValueView::Str(s) => {
                let r = evals_at(w, args, 0, env, at, fuel, Seq::empty());
                lemma_evals(w, v, args, 0, env, at, fuel, Seq::empty());
                if let Ok(vs) = r.out {
                    lemma_methods(s, Seq::empty(), method, vs);
                    lemma_settled(w, v, text_method_called(s, method, vs), r.at);
                }
            },
            ValueView::List(items) => {
                if method == "map"@ {
                    lemma_map_call(w, v, items, args, env, at, fuel);
                } else if method == "filter"@ {
                    lemma_filter_call(w, v, items, args, env, at, fuel);
                } else if method == "reduce"@ {
                    lemma_reduce_call(w, v, items, args, env, at, fuel);
                } else {
                    let r = evals_at(w, args, 0, env, at, fuel, Seq::empty());
                    lemma_evals(w, v, args, 0, env, at, fuel, Seq::empty());
                    if let Ok(vs) = r.out {
                        lemma_methods(Seq::empty(), items, method, vs);
                        lemma_settled(w, v, list_method_called(items, method, vs), r.at);
                    }
                }
            },
            _ => {},
        }
    }
}

proof fn lemma_map_call(
    w: World,
    v: World,
    items: Seq<ValueView>,
    args: Seq<Expr>,
    env: Env,
    at: TrackView,
    fuel: nat,
)
    requires
        starts(w, v, at),
    ensures
        kept(w, at, map_call(w, items, args, env, at, fuel), map_call(v, items, args, env, at, fuel)),
    decreases fuel, 0int, args, 0int, 0int,
{
    if args.len() > 0 && args[0] is Closure {
        assert(decreases_to!(args => args[0]));
        lemma_map(
            w,
            v,
            items,
            0,
            args[0]->Closure_params@,
            *args[0]->Closure_body,
            env,
            at,
            fuel,
            Seq::empty(),
        );
    }
}

proof fn lemma_filter_call(
    w: World,
    v: World,
    items: Seq<ValueView>,
    args: Seq<Expr>,
    env: Env,
    at: TrackView,
    fuel: nat,
)
    requires
        starts(w, v, at),
    ensures
        kept(
            w,
            at,
            filter_call(w, items, args, env, at, fuel),
            filter_call(v, items, args, env, at, fuel),
        ),
    decreases fuel, 0int, args, 0int, 0int,
{
    if args.len() > 0 && args[0] is Closure {
        assert(decreases_to!(args => args[0]));
        lemma_filter(
            w,
            v,
            items,
            0,
            args[0]->Closure_params@,
            *args[0]->Closure_body,
            env,
            at,
            fuel,
            Seq::empty(),
        );
    }
}

proof fn lemma_reduce_call(
    w: World,
    v: World,
    items: Seq<ValueView>,
    args: Seq<Expr>,
    env: Env,
    at: TrackView,
    fuel: nat,
)
    requires
        starts(w, v, at),
    ensures
        kept(
            w,
            at,
            reduce_call(w, items, args, env, at, fuel),
            reduce_call(v, items, args, env, at, fuel),
        ),
    decreases fuel, 0int, args, 0int, 0int,
{
    if args.len() > 0 {
        let r = eval_at(w, args[0], env, at, fuel);
        lemma_eval(w, v, args[0], env, at, fuel);
        if let Ok(init) = r.out {
            if args.len() > 1 && args[1] is Closure {
                assert(decreases_to!(args => args[1]));
                lemma_reduce(
                    w,
                    v,
                    items,
                    0,
                    args[1]->Closure_params@,
                    *args[1]->Closure_body,
                    env,
                    r.at,
                    fuel,
                    init,
                );
            }
        }
    }
}

proof fn lemma_map(
    w: World,
    v: World,
    items: Seq<ValueView>,
    i: int,
    names: Seq<String>,
    body: Expr,
    env: Env,
    at: TrackView,
    fuel: nat,
    seen: Seq<ValueView>,
)
    requires
        starts(w, v, at),
    ensures
        kept(
            w,
            at,
            map_at(w, items, i, names, body, env, at, fuel, seen),
            map_at(v, items, i, names, body, env, at, fuel, seen),
        ),
    decreases fuel, 0int, body, 3int, items.len() - i,
{
    if 0 <= i < items.len() {
        let inner = closure_env(env, names, seq![items[i]]);
        let r = eval_at(w, body, inner, at, fuel);
        lemma_eval(w, v, body, inner, at, fuel);
        if let Ok(x) = r.out {
            lemma_map(w, v, items, i + 1, names, body, env, r.at, fuel, seen.push(x));
        }
    }
}

proof fn lemma_filter(
    w: World,
    v: World,
    items: Seq<ValueView>,
    i: int,
    names: Seq<String>,
    body: Expr,
    env: Env,
    at: TrackView,
    fuel: nat,
    seen: Seq<ValueView>,
)
    requires
        starts(w, v, at),
    ensures
        kept(
            w,
            at,
            filter_at(w, items, i, names, body, env, at, fuel, seen),
            filter_at(v, items, i, names, body, env, at, fuel, seen),
        ),
    decreases fuel, 0int, body, 3int, items.len() - i,
{
    if 0 <= i < items.len() {
        let inner = closure_env(env, names, seq![items[i]]);
        let r = eval_at(w, body, inner, at, fuel);
        lemma_eval(w, v, body, inner, at, fuel);
        if let Ok(ValueView::Bool(b)) = r.out {
            let more = if b {
                seen.push(items[i])
            } else {
                seen
            };
            lemma_filter(w, v, items, i + 1, names, body, env, r.at, fuel, more);
        }
    }
}

proof fn lemma_reduce(
    w: World,
    v: World,
    items: Seq<ValueView>,
    i: int,
    names: Seq<String>,
    body: Expr,
    env: Env,
    at: TrackView,
    fuel: nat,
    acc: ValueView,
)
    requires
        starts(w, v, at),
    ensures
        kept(
            w,
            at,
            reduce_at(w, items, i, names, body, env, at, fuel, acc),
            reduce_at(v, items, i, names, body, env, at, fuel, acc),
        ),
    decreases fuel, 0int, body, 3int, items.len() - i,
{
    if 0 <= i < items.len() {
        let inner = closure_env(env, names, seq![acc, items[i]]);
        let r = eval_at(w, body, inner, at, fuel);
        lemma_eval(w, v, body, inner, at, fuel);
        if let Ok(x) = r.out {
            lemma_reduce(w, v, items, i + 1, names, body, env, r.at, fuel, x);
        }
    }
}

proof fn lemma_session(
    w: World,
    v: World,
    method: Seq<char>,
    args: Seq<Expr>,
    env: Env,
    at: TrackView,
    fuel: nat,
)
    requires
        starts(w, v, at),
    ensures
        kept(
            w,
            at,
            session_at(w, method, args, env, at, fuel),
            session_at(v, method, args, env, at, fuel),
        ),
    decreases fuel, 0int, args, 1int, 0int,
{
    if method == "login"@ && args.len() > 0 {
        lemma_eval(w, v, args[0], env, at, fuel);
    }
}

proof fn lemma_log(
    w: World,
    v: World,
    method: Seq<char>,
    args: Seq<Expr>,
    env: Env,
    at: TrackView,
    fuel: nat,
)
    requires
        starts(w, v, at),
    ensures
        kept(w, at, log_at(w, method, args, env, at, fuel), log_at(v, method, args, env, at, fuel)),
    decreases fuel, 0int, args, 1int, 0int,
{
    if args.len() > 0 {
        lemma_eval(w, v, args[0], env, at, fuel);
    }
}

proof fn lemma_endpoint(
    w: World,
    v: World,
    k: int,
    method: Seq<char>,
    args: Seq<Expr>,
    env: Env,
    at: TrackView,
    fuel: nat,
)
    requires
        starts(w, v, at),
        0 <= k < w.program.endpoints@.len(),
    ensures
        kept(
            w,
            at,
            endpoint_at(w, w.program.endpoints@[k], method, args, env, at, fuel),
            endpoint_at(v, w.program.endpoints@[k], method, args, env, at, fuel),
        ),
    decreases fuel, 0int, args, 1int, 0int,
{
    let ep = w.program.endpoints@[k];
    if args.len() > 0 {
        let r = eval_at(w, args[0], env, at, fuel);
        lemma_eval(w, v, args[0], env, at, fuel);
        if let Ok(ValueView::Str(path)) = r.out {
            let url = ep.base@ + path;
            assert(goes_to(ep, url, token_of(ep))) by {
                assert(ep.base@ =~= url.subrange(0, ep.base@.len() as int));
            }
            if method != "get"@ && method == "post"@ && args.len() > 1 {
                lemma_eval(w, v, args[1], env, r.at, fuel);
            }
        }
    }
}

proof fn lemma_sql(w: World, v: World, args: Seq<Expr>, env: Env, at: TrackView, fuel: nat)
    requires
        starts(w, v, at),
    ensures
        kept(w, at, sql_at(w, args, env, at, fuel), sql_at(v, args, env, at, fuel)),
    decreases fuel, 0int, args, 1int, 0int,
{
    if args.len() > 0 {
        let r = eval_at(w, args[0], env, at, fuel);
        lemma_eval(w, v, args[0], env, at, fuel);
        if r.out is Ok {
            lemma_sql_params(w, v, args, 1, env, r.at, fuel, Seq::empty());
        }
    }
}

proof fn lemma_sql_params(
    w: World,
    v: World,
    args: Seq<Expr>,
    i: int,
    env: Env,
    at: TrackView,
    fuel: nat,
    seen: Seq<ValueView>,
)
    requires
        starts(w, v, at),
    ensures
        kept(
            w,
            at,
            sql_params_at(w, args, i, env, at, fuel, seen),
            sql_params_at(v, args, i, env, at, fuel, seen),
        ),
    decreases fuel, 0int, args, 0int, args.len() - i,
{
    if 0 <= i < args.len() {
        let r = eval_at(w, args[i], env, at, fuel);
        lemma_eval(w, v, args[i], env, at, fuel);
        if let Ok(x) = r.out {
            lemma_sql_params(w, v, args, i + 1, env, r.at, fuel, seen.push(x));
        }
    }
}

proof fn lemma_exec(w: World, v: World, args: Seq<Expr>, env: Env, at: TrackView, fuel: nat)
    requires
        starts(w, v, at),
    ensures
        kept(w, at, exec_at(w, args, env, at, fuel), exec_at(v, args, env, at, fuel)),
    decreases fuel, 0int, args, 2int, 0int,
{
    lemma_sql(w, v, args, env, at, fuel);
}

proof fn lemma_query(
    w: World,
    v: World,
    method: Seq<char>,
    args: Seq<Expr>,
    ty: Option<Seq<char>>,
    env: Env,
    at: TrackView,
    fuel: nat,
)
    requires
        starts(w, v, at),
    ensures
        kept(
            w,
            at,
            query_at(w, method, args, ty, env, at, fuel),
            query_at(v, method, args, ty, env, at, fuel),
        ),
    decreases fuel, 0int, args, 2int, 0int,
{
    lemma_sql(w, v, args, env, at, fuel);
}

proof fn lemma_typed(
    w: World,
    v: World,
    e: Expr,
    ty: Option<Seq<char>>,
    env: Env,
    at: TrackView,
    fuel: nat,
)
    requires
        starts(w, v, at),
    ensures
        kept(w, at, typed_at(w, e, ty, env, at, fuel), typed_at(v, e, ty, env, at, fuel)),
    decreases fuel, 0int, e, 3int, 0int,
{
    lemma_eval(w, v, e, env, at, fuel);
    if let Expr::MethodCall { receiver, method, args } = e {
        if is_name(*receiver, "db"@) && (method@ == "query_one"@ || method@
            == "query"@) {
            lemma_query(w, v, method@, args@, ty, env, at, fuel);
        } else if method@ == "get"@ && named_endpoint(w.program, *receiver) is Some
            && typed_target(w.program, ty) is Some {
            let es = w.program.endpoints@;
            lemma_endpoint_index(es, es.len() as int, receiver->Ident_0@);
            lemma_endpoint(
                w,
                v,
                named_endpoint(w.program, *receiver)->0,
                "get"@,
                args@,
                env,
                at,
                fuel,
            );
        }
    }
}

proof fn lemma_call(
    w: World,
    v: World,
    name: Seq<char>,
    args: Seq<ValueView>,
    at: TrackView,
    fuel: nat,
)
    requires
        starts(w, v, at),
    ensures
        kept(w, at, call_at(w, name, args, at, fuel), call_at(v, name, args, at, fuel)),
    decreases fuel, 0int, w.program, 0int, 0int,
{
    match builtin_called(name, args) {
        Some(p) => {
            lemma_builtin(name, args);
            lemma_settled(w, v, p, at);
        },
        None => {
            let fs = w.program.functions@;
            if let Some(i) = function_index(fs, fs.len() as int, name) {
                if fuel > 0 {
                    let f = fs[i];
                    lemma_block(
                        w,
                        v,
                        f.body@,
                        0,
                        bound_params(
                            f.params@,
                            args,
                            shorter(f.params@.len(), args.len()),
                        ),
                        opt_text(f.return_type),
                        at,
                        (fuel - 1) as nat,
                    );
                }
            }
        },
    }
}

proof fn lemma_block(
    w: World,
    v: World,
    ss: Seq<Stmt>,
    i: int,
    env: Env,
    ret: Option<Seq<char>>,
    at: TrackView,
    fuel: nat,
)
    requires
        starts(w, v, at),
    ensures
        kept(
            w,
            at,
            block_at(w, ss, i, env, ret, at, fuel),
            block_at(v, ss, i, env, ret, at, fuel),
        ),
    decreases fuel, 1int, ss, 0int, ss.len() - i,
{
    if 0 <= i < ss.len() {
        let r = stmt_at(w, ss[i], env, ret, at, fuel);
        lemma_stmt(w, v, ss[i], env, ret, at, fuel);
        if let Ok((FlowView::Next, env2)) = r.out {
            lemma_block(w, v, ss, i + 1, env2, ret, r.at, fuel);
        }
    }
}

proof fn lemma_closed(w: World, v: World, at: TrackView, r: Ran<(FlowView, Env)>, again: Ran<(FlowView, Env)>)
    requires
        starts(w, v, at),
        kept(w, at, r, again),
    ensures
        kept(w, at, closed_at(w, r), closed_at(v, again)),
{
}

proof fn lemma_stmt(
    w: World,
    v: World,
    s: Stmt,
    env: Env,
    ret: Option<Seq<char>>,
    at: TrackView,
    fuel: nat,
)
    requires
        starts(w, v, at),
    ensures
        kept(w, at, stmt_at(w, s, env, ret, at, fuel), stmt_at(v, s, env, ret, at, fuel)),
    decreases fuel, 1int, s, 2int, 0int,
{
    match s {
        Stmt::Let { name, type_ann, value } => {
            lemma_typed(w, v, value, opt_text(type_ann), env, at, fuel);
        },
        Stmt::Assign { name, value } => {
            lemma_eval(w, v, value, env, at, fuel);
        },
        Stmt::Expr(e) => {
            lemma_eval(w, v, e, env, at, fuel);
        },
        Stmt::Return(e) => {
            lemma_typed(w, v, e, ret, env, at, fuel);
        },
        Stmt::Try { body, handler } => {
            lemma_block(w, v, body@, 0, env, ret, at, fuel);
        },
        Stmt::If { cond, then_body, else_body } => {
            let c = truth(eval_at(w, cond, env, at, fuel));
            lemma_eval(w, v, cond, env, at, fuel);
            if let Ok(b) = c.out {
                if b {
                    lemma_block(w, v, then_body@, 0, env, ret, c.at, fuel);
                } else {
                    lemma_block(w, v, else_body@, 0, env, ret, c.at, fuel);
                }
            }
        },
        Stmt::For { var, iter, body } => {
            let r = eval_at(w, iter, env, at, fuel);
            lemma_eval(w, v, iter, env, at, fuel);
            if let Ok(ValueView::List(items)) = r.out {
                lemma_for(w, v, var@, items, 0, body@, env, ret, r.at, fuel);
            }
        },
        Stmt::While { .. } => {
            lemma_while(w, v, s, env, ret, at, fuel);
        },
        Stmt::Break => {},
        Stmt::Continue => {},
        Stmt::Match { scrutinee, arms } => {
            let r = eval_at(w, scrutinee, env, at, fuel);
            lemma_eval(w, v, scrutinee, env, at, fuel);
            if let Ok(ValueView::Str(x)) = r.out {
                if let Some(i) = chosen_arm(arms@, x) {
                    if 0 <= i < arms@.len() {
                        lemma_block(w, v, arms@[i].body@, 0, env, ret, r.at, fuel);
                    }
                }
            }
        },
        Stmt::Transaction(body) => {
            let b = asked(w, EffectView::Begin, at);
            lemma_asked(w, v, EffectView::Begin, at);
            if b.out is Ok {
                lemma_block(w, v, body@, 0, env, ret, b.at, fuel);
                lemma_closed(
                    w,
                    v,
                    b.at,
                    block_at(w, body@, 0, env, ret, b.at, fuel),
                    block_at(v, body@, 0, env, ret, b.at, fuel),
                );
            }
        },
    }
}

proof fn lemma_for(
    w: World,
    v: World,
    var: Seq<char>,
    items: Seq<ValueView>,
    k: int,
    body: Seq<Stmt>,
    env: Env,
    ret: Option<Seq<char>>,
    at: TrackView,
    fuel: nat,
)
    requires
        starts(w, v, at),
    ensures
        kept(
            w,
            at,
            for_at(w, var, items, k, body, env, ret, at, fuel),
            for_at(v, var, items, k, body, env, ret, at, fuel),
        ),
    decreases fuel, 1int, body, 1int, items.len() - k,
{
    if 0 <= k < items.len() {
        let inner = env.insert(var, items[k]);
        let r = block_at(w, body, 0, inner, ret, at, fuel);
        lemma_block(w, v, body, 0, inner, ret, at, fuel);
        if let Ok((_, env2)) = r.out {
            lemma_for(w, v, var, items, k + 1, body, env2, ret, r.at, fuel);
        }
    }
}

proof fn lemma_while(
    w: World,
    v: World,
    s: Stmt,
    env: Env,
    ret: Option<Seq<char>>,
    at: TrackView,
    fuel: nat,
)
    requires
        starts(w, v, at),
    ensures
        kept(w, at, while_at(w, s, env, ret, at, fuel), while_at(v, s, env, ret, at, fuel)),
    decreases fuel, 1int, s, 1int, 0int,
{
    if let Stmt::While { cond, body } = s {
        let c = truth(eval_at(w, cond, env, at, fuel));
        lemma_eval(w, v, cond, env, at, fuel);
        if c.out == Ok::<bool, StopView>(true) {
            let r = block_at(w, body@, 0, env, ret, c.at, fuel);
            lemma_block(w, v, body@, 0, env, ret, c.at, fuel);
            if let Ok((_, env2)) = r.out {
                if fuel > 0 {
                    lemma_while(w, v, s, env2, ret, r.at, (fuel - 1) as nat);
                }
            }
        }
    }
}

/// A call that has come to an end comes to the same end when its host has further answers.
pub proof fn law_further_answers_change_nothing(
    w: World,
    v: World,
    name: Seq<char>,
    args: Seq<ValueView>,
    cookie: Option<Seq<char>>,
    fuel: nat,
)
    requires
        extends(w, v),
    ensures
        !(call_at(w, name, args, begun(cookie), fuel).out matches Err(StopView::Need(_))) ==> call_at(
            v,
            name,
            args,
            begun(cookie),
            fuel,
        ) == call_at(w, name, args, begun(cookie), fuel),
{
    lemma_call(w, v, name, args, begun(cookie), fuel);
}

/// A call waits for its host only when it has used every answer that there is.
pub proof fn law_waiting_call_has_used_its_answers(
    w: World,
    name: Seq<char>,
    args: Seq<ValueView>,
    cookie: Option<Seq<char>>,
    fuel: nat,
)
    ensures
        ({
            let r = call_at(w, name, args, begun(cookie), fuel);
            r.out matches Err(StopView::Need(_)) ==> r.at.pos == w.replies.len()
        }),
{
    lemma_call(w, w, name, args, begun(cookie), fuel);
}

/// A function reaches no host but those of the declared endpoints: each request that it waits for goes
/// to an endpoint's base and a path behind it, with that endpoint's token.
pub proof fn law_egress_is_declared(
    w: World,
    name: Seq<char>,
    args: Seq<ValueView>,
    cookie: Option<Seq<char>>,
    fuel: nat,
)
    ensures
        call_at(w, name, args, begun(cookie), fuel).out matches Err(StopView::Need(e)) ==> lawful(
            w.program,
            e,
        ),
{
    lemma_call(w, w, name, args, begun(cookie), fuel);
}

/// What holds of the calls of functions holds of the routes of an `api`: further answers do not change
/// what a route has come to, and it reaches no host but those of the declared endpoints.
pub proof fn law_routes_run_as_functions_do(
    w: World,
    v: World,
    body: Seq<Stmt>,
    env: Env,
    ret: Option<Seq<char>>,
    cookie: Option<Seq<char>>,
    fuel: nat,
)
    requires
        extends(w, v),
    ensures
        match returned(block_at(w, body, 0, env, ret, begun(cookie), fuel)).out {
            Err(StopView::Need(e)) => lawful(w.program, e),
            _ => returned(block_at(v, body, 0, env, ret, begun(cookie), fuel)) == returned(
                block_at(w, body, 0, env, ret, begun(cookie), fuel),
            ),
        },
{
    lemma_block(w, v, body, 0, env, ret, begun(cookie), fuel);
}

/// A transaction is all or nothing: its end is asked for as soon as its body has come to an end, to keep
/// it where the body did not fail and to undo it where it did, and a body that failed still fails.
pub proof fn law_failed_transaction_is_undone(w: World, r: Ran<(FlowView, Env)>)
    ensures
        r.out is Ok && r.at.pos == w.replies.len() ==> closed_at(w, r).out == Err::<
            (FlowView, Env),
            StopView,
        >(StopView::Need(EffectView::End(true))),
        r.out matches Err(StopView::Failed(m)) ==> if 0 <= r.at.pos < w.replies.len() {
            closed_at(w, r).out == Err::<(FlowView, Env), StopView>(StopView::Failed(m))
        } else {
            closed_at(w, r).out == Err::<(FlowView, Env), StopView>(
                StopView::Need(EffectView::End(false)),
            )
        },
{
}

} // verus!
