//! The cookie over several runs of the interpreter: a run keeps the cookie that it finds, or the last
//! login or logout in it replaces that cookie, whatever it was.
use vstd::prelude::*;

use crate::ast::{EndpointNode, Expr, Stmt};
use crate::builtin::{
    builtin_called, list_method_called, operated, text_method_called, EffectView, PlanView,
};
use crate::interp::{
    asked, begun, block_at, bound_params, call_at, chosen_arm, closed_at, closure_env, endpoint_at,
    eval_at, evals_at, exec_at, field_of, fields_at, filter_at, filter_call, for_at, function_index,
    index_of, is_name, left_cookie, log_at, map_at, map_call, method_at, named_endpoint, query_at,
    reduce_at, reduce_call, returned, session_at, settled, shorter, sql_at, sql_params_at, stmt_at,
    truth, typed_at, typed_target, unary_of, value_method_at, while_at, Env, FlowView, Ran, StopView,
    TrackView, World,
};
use crate::resolve::opt_text;
use crate::session::{login_cookie, logout_cookie};
use crate::value::ValueView;

verus! {

/// Of two cookies set one after the other, the one that stands.
pub open spec fn later(first: Option<Seq<char>>, second: Option<Seq<char>>) -> Option<Seq<char>> {
    match second {
        Some(_) => second,
        None => first,
    }
}

/// How far a run has come, where a cookie was there before it.
pub open spec fn over(c: Option<Seq<char>>, at: TrackView) -> TrackView {
    TrackView { pos: at.pos, cookie: later(c, at.cookie) }
}

/// Whether a cookie is one that signs in or out, if it is there at all.
pub open spec fn is_session_cookie(w: World, cookie: Option<Seq<char>>) -> bool {
    match cookie {
        None => true,
        Some(t) => t == logout_cookie() || exists|id: Seq<char>|
            t == #[trigger] login_cookie(id, w.key),
    }
}

// Whether a step came to the same with another cookie before it, and set none but a session's.
spec fn moved<T>(w: World, c: Option<Seq<char>>, at: TrackView, r: Ran<T>, again: Ran<T>) -> bool {
    &&& again.out == r.out
    &&& again.at == over(c, r.at)
    &&& is_session_cookie(w, at.cookie) ==> is_session_cookie(w, r.at.cookie)
}

proof fn lemma_asked(w: World, c: Option<Seq<char>>, e: EffectView, at: TrackView)
    ensures
        moved(w, c, at, asked(w, e, at), asked(w, e, over(c, at))),
{
}

proof fn lemma_settled(w: World, c: Option<Seq<char>>, p: PlanView, at: TrackView)
    ensures
        moved(w, c, at, settled(w, p, at), settled(w, p, over(c, at))),
{
}

proof fn lemma_eval(w: World, c: Option<Seq<char>>, e: Expr, env: Env, at: TrackView, fuel: nat)
    ensures
        moved(w, c, at, eval_at(w, e, env, at, fuel), eval_at(w, e, env, over(c, at), fuel)),
    decreases fuel, 0int, e, 2int, 0int,
{
    match e {
        Expr::Int(_) | Expr::Str(_) | Expr::Bool(_) | Expr::NoneLit | Expr::Ident(_) => {},
        Expr::Closure { .. } => {},
        Expr::Float(t) => {
            lemma_asked(w, c, EffectView::Numbers(seq![t@]), at);
        },
        Expr::Field { base, field } => {
            let r = eval_at(w, *base, env, at, fuel);
            lemma_eval(w, c, *base, env, at, fuel);
            if let Ok(x) = r.out {
                lemma_settled(w, c, field_of(x, field@), r.at);
            }
        },
        Expr::Unary { op, expr } => {
            let r = eval_at(w, *expr, env, at, fuel);
            lemma_eval(w, c, *expr, env, at, fuel);
            if let Ok(x) = r.out {
                lemma_settled(w, c, unary_of(op, x), r.at);
            }
        },
        Expr::Binary { op, left, right } => {
            let l = eval_at(w, *left, env, at, fuel);
            lemma_eval(w, c, *left, env, at, fuel);
            if let Ok(a) = l.out {
                let r = eval_at(w, *right, env, l.at, fuel);
                lemma_eval(w, c, *right, env, l.at, fuel);
                if let Ok(b) = r.out {
                    lemma_settled(w, c, operated(op, a, b), r.at);
                }
            }
        },
        Expr::Call { callee, args } => {
            let r = evals_at(w, args@, 0, env, at, fuel, Seq::empty());
            lemma_evals(w, c, args@, 0, env, at, fuel, Seq::empty());
            if let Ok(vs) = r.out {
                if fuel > 0 {
                    lemma_call(w, c, callee@, vs, r.at, (fuel - 1) as nat);
                }
            }
        },
        Expr::Declassify(inner) => {
            lemma_eval(w, c, *inner, env, at, fuel);
        },
        Expr::Raw(inner) => {
            lemma_eval(w, c, *inner, env, at, fuel);
        },
        Expr::Await(inner) => {
            lemma_eval(w, c, *inner, env, at, fuel);
        },
        Expr::Record { name, fields } => {
            lemma_fields(w, c, fields@, 0, env, at, fuel, Seq::empty());
        },
        Expr::ListLit(items) => {
            lemma_evals(w, c, items@, 0, env, at, fuel, Seq::empty());
        },
        Expr::Ternary { cond, yes, otherwise } => {
            let r = eval_at(w, *cond, env, at, fuel);
            lemma_eval(w, c, *cond, env, at, fuel);
            if let Ok(ValueView::Bool(b)) = r.out {
                if b {
                    lemma_eval(w, c, *yes, env, r.at, fuel);
                } else {
                    lemma_eval(w, c, *otherwise, env, r.at, fuel);
                }
            }
        },
        Expr::Range { start, end } => {
            let l = eval_at(w, *start, env, at, fuel);
            lemma_eval(w, c, *start, env, at, fuel);
            if l.out is Ok {
                lemma_eval(w, c, *end, env, l.at, fuel);
            }
        },
        Expr::Index { base, index } => {
            let l = eval_at(w, *base, env, at, fuel);
            lemma_eval(w, c, *base, env, at, fuel);
            if let Ok(b) = l.out {
                let r = eval_at(w, *index, env, l.at, fuel);
                lemma_eval(w, c, *index, env, l.at, fuel);
                if let Ok(i) = r.out {
                    lemma_settled(w, c, index_of(b, i), r.at);
                }
            }
        },
        Expr::MethodCall { .. } => {
            lemma_method(w, c, e, env, at, fuel);
        },
    }
}

proof fn lemma_evals(
    w: World,
    c: Option<Seq<char>>,
    es: Seq<Expr>,
    i: int,
    env: Env,
    at: TrackView,
    fuel: nat,
    seen: Seq<ValueView>,
)
    ensures
        moved(
            w,
            c,
            at,
            evals_at(w, es, i, env, at, fuel, seen),
            evals_at(w, es, i, env, over(c, at), fuel, seen),
        ),
    decreases fuel, 0int, es, 0int, es.len() - i,
{
    if 0 <= i < es.len() {
        let r = eval_at(w, es[i], env, at, fuel);
        lemma_eval(w, c, es[i], env, at, fuel);
        if let Ok(x) = r.out {
            lemma_evals(w, c, es, i + 1, env, r.at, fuel, seen.push(x));
        }
    }
}

proof fn lemma_fields(
    w: World,
    c: Option<Seq<char>>,
    fs: Seq<(String, Expr)>,
    i: int,
    env: Env,
    at: TrackView,
    fuel: nat,
    seen: Seq<(Seq<char>, ValueView)>,
)
    ensures
        moved(
            w,
            c,
            at,
            fields_at(w, fs, i, env, at, fuel, seen),
            fields_at(w, fs, i, env, over(c, at), fuel, seen),
        ),
    decreases fuel, 0int, fs, 0int, fs.len() - i,
{
    if 0 <= i < fs.len() {
        let r = eval_at(w, fs[i].1, env, at, fuel);
        lemma_eval(w, c, fs[i].1, env, at, fuel);
        if let Ok(x) = r.out {
            lemma_fields(w, c, fs, i + 1, env, r.at, fuel, seen.push((fs[i].0@, x)));
        }
    }
}

proof fn lemma_method(w: World, c: Option<Seq<char>>, e: Expr, env: Env, at: TrackView, fuel: nat)
    ensures
        moved(w, c, at, method_at(w, e, env, at, fuel), method_at(w, e, env, over(c, at), fuel)),
    decreases fuel, 0int, e, 1int, 0int,
{
    if let Expr::MethodCall { receiver, method, args } = e {
        if is_name(*receiver, "session"@) {
            lemma_session(w, c, method@, args@, env, at, fuel);
        } else if is_name(*receiver, "log"@) {
            lemma_log(w, c, method@, args@, env, at, fuel);
        } else if named_endpoint(w.program, *receiver) is Some {
            lemma_endpoint(
                w,
                c,
                w.program.endpoints@[named_endpoint(w.program, *receiver)->0],
                method@,
                args@,
                env,
                at,
                fuel,
            );
        } else if is_name(*receiver, "db"@) && method@ == "exec"@ {
            lemma_exec(w, c, args@, env, at, fuel);
        } else {
            let r = eval_at(w, *receiver, env, at, fuel);
            lemma_eval(w, c, *receiver, env, at, fuel);
            if let Ok(x) = r.out {
                lemma_value_method(w, c, x, method@, args@, env, r.at, fuel);
            }
        }
    }
}

proof fn lemma_value_method(
    w: World,
    c: Option<Seq<char>>,
    recv: ValueView,
    method: Seq<char>,
    args: Seq<Expr>,
    env: Env,
    at: TrackView,
    fuel: nat,
)
    ensures
        moved(
            w,
            c,
            at,
            value_method_at(w, recv, method, args, env, at, fuel),
            value_method_at(w, recv, method, args, env, over(c, at), fuel),
        ),
    decreases fuel, 0int, args, 1int, 0int,
{
    if method == "or"@ {
        if recv is Null && args.len() > 0 {
            lemma_eval(w, c, args[0], env, at, fuel);
        }
    } else {
        match recv {
            ValueView::Str(s) => {
                let r = evals_at(w, args, 0, env, at, fuel, Seq::empty());
                lemma_evals(w, c, args, 0, env, at, fuel, Seq::empty());
                if let Ok(vs) = r.out {
                    lemma_settled(w, c, text_method_called(s, method, vs), r.at);
                }
            },
            ValueView::List(items) => {
                if method == "map"@ {
                    lemma_map_call(w, c, items, args, env, at, fuel);
                } else if method == "filter"@ {
                    lemma_filter_call(w, c, items, args, env, at, fuel);
                } else if method == "reduce"@ {
                    lemma_reduce_call(w, c, items, args, env, at, fuel);
                } else {
                    let r = evals_at(w, args, 0, env, at, fuel, Seq::empty());
                    lemma_evals(w, c, args, 0, env, at, fuel, Seq::empty());
                    if let Ok(vs) = r.out {
                        lemma_settled(w, c, list_method_called(items, method, vs), r.at);
                    }
                }
            },
            _ => {},
        }
    }
}

proof fn lemma_map_call(
    w: World,
    c: Option<Seq<char>>,
    items: Seq<ValueView>,
    args: Seq<Expr>,
    env: Env,
    at: TrackView,
    fuel: nat,
)
    ensures
        moved(
            w,
            c,
            at,
            map_call(w, items, args, env, at, fuel),
            map_call(w, items, args, env, over(c, at), fuel),
        ),
    decreases fuel, 0int, args, 0int, 0int,
{
    if args.len() > 0 && args[0] is Closure {
        assert(decreases_to!(args => args[0]));
        lemma_map(
            w,
            c,
            items,
            0,
            args[0]->Closure_params@,
            *args[0]->Closure_body,
            env,
            at,
            fuel,
            Seq::empty(),
        );
    }
}

proof fn lemma_filter_call(
    w: World,
    c: Option<Seq<char>>,
    items: Seq<ValueView>,
    args: Seq<Expr>,
    env: Env,
    at: TrackView,
    fuel: nat,
)
    ensures
        moved(
            w,
            c,
            at,
            filter_call(w, items, args, env, at, fuel),
            filter_call(w, items, args, env, over(c, at), fuel),
        ),
    decreases fuel, 0int, args, 0int, 0int,
{
    if args.len() > 0 && args[0] is Closure {
        assert(decreases_to!(args => args[0]));
        lemma_filter(
            w,
            c,
            items,
            0,
            args[0]->Closure_params@,
            *args[0]->Closure_body,
            env,
            at,
            fuel,
            Seq::empty(),
        );
    }
}

proof fn lemma_reduce_call(
    w: World,
    c: Option<Seq<char>>,
    items: Seq<ValueView>,
    args: Seq<Expr>,
    env: Env,
    at: TrackView,
    fuel: nat,
)
    ensures
        moved(
            w,
            c,
            at,
            reduce_call(w, items, args, env, at, fuel),
            reduce_call(w, items, args, env, over(c, at), fuel),
        ),
    decreases fuel, 0int, args, 0int, 0int,
{
    if args.len() > 0 {
        let r = eval_at(w, args[0], env, at, fuel);
        lemma_eval(w, c, args[0], env, at, fuel);
        if let Ok(init) = r.out {
            if args.len() > 1 && args[1] is Closure {
                assert(decreases_to!(args => args[1]));
                lemma_reduce(
                    w,
                    c,
                    items,
                    0,
                    args[1]->Closure_params@,
                    *args[1]->Closure_body,
                    env,
                    r.at,
                    fuel,
                    init,
                );
            }
        }
    }
}

proof fn lemma_map(
    w: World,
    c: Option<Seq<char>>,
    items: Seq<ValueView>,
    i: int,
    names: Seq<String>,
    body: Expr,
    env: Env,
    at: TrackView,
    fuel: nat,
    seen: Seq<ValueView>,
)
    ensures
        moved(
            w,
            c,
            at,
            map_at(w, items, i, names, body, env, at, fuel, seen),
            map_at(w, items, i, names, body, env, over(c, at), fuel, seen),
        ),
    decreases fuel, 0int, body, 3int, items.len() - i,
{
    if 0 <= i < items.len() {
        let inner = closure_env(env, names, seq![items[i]]);
        let r = eval_at(w, body, inner, at, fuel);
        lemma_eval(w, c, body, inner, at, fuel);
        if let Ok(x) = r.out {
            lemma_map(w, c, items, i + 1, names, body, env, r.at, fuel, seen.push(x));
        }
    }
}

proof fn lemma_filter(
    w: World,
    c: Option<Seq<char>>,
    items: Seq<ValueView>,
    i: int,
    names: Seq<String>,
    body: Expr,
    env: Env,
    at: TrackView,
    fuel: nat,
    seen: Seq<ValueView>,
)
    ensures
        moved(
            w,
            c,
            at,
            filter_at(w, items, i, names, body, env, at, fuel, seen),
            filter_at(w, items, i, names, body, env, over(c, at), fuel, seen),
        ),
    decreases fuel, 0int, body, 3int, items.len() - i,
{
    if 0 <= i < items.len() {
        let inner = closure_env(env, names, seq![items[i]]);
        let r = eval_at(w, body, inner, at, fuel);
        lemma_eval(w, c, body, inner, at, fuel);
        if let Ok(ValueView::Bool(b)) = r.out {
            let more = if b {
                seen.push(items[i])
            } else {
                seen
            };
            lemma_filter(w, c, items, i + 1, names, body, env, r.at, fuel, more);
        }
    }
}

proof fn lemma_reduce(
    w: World,
    c: Option<Seq<char>>,
    items: Seq<ValueView>,
    i: int,
    names: Seq<String>,
    body: Expr,
    env: Env,
    at: TrackView,
    fuel: nat,
    acc: ValueView,
)
    ensures
        moved(
            w,
            c,
            at,
            reduce_at(w, items, i, names, body, env, at, fuel, acc),
            reduce_at(w, items, i, names, body, env, over(c, at), fuel, acc),
        ),
    decreases fuel, 0int, body, 3int, items.len() - i,
{
    if 0 <= i < items.len() {
        let inner = closure_env(env, names, seq![acc, items[i]]);
        let r = eval_at(w, body, inner, at, fuel);
        lemma_eval(w, c, body, inner, at, fuel);
        if let Ok(x) = r.out {
            lemma_reduce(w, c, items, i + 1, names, body, env, r.at, fuel, x);
        }
    }
}

proof fn lemma_session(
    w: World,
    c: Option<Seq<char>>,
    method: Seq<char>,
    args: Seq<Expr>,
    env: Env,
    at: TrackView,
    fuel: nat,
)
    ensures
        moved(
            w,
            c,
            at,
            session_at(w, method, args, env, at, fuel),
            session_at(w, method, args, env, over(c, at), fuel),
        ),
    decreases fuel, 0int, args, 1int, 0int,
{
    if method == "login"@ && args.len() > 0 {
        lemma_eval(w, c, args[0], env, at, fuel);
    }
}

proof fn lemma_log(
    w: World,
    c: Option<Seq<char>>,
    method: Seq<char>,
    args: Seq<Expr>,
    env: Env,
    at: TrackView,
    fuel: nat,
)
    ensures
        moved(
            w,
            c,
            at,
            log_at(w, method, args, env, at, fuel),
            log_at(w, method, args, env, over(c, at), fuel),
        ),
    decreases fuel, 0int, args, 1int, 0int,
{
    if args.len() > 0 {
        lemma_eval(w, c, args[0], env, at, fuel);
    }
}

proof fn lemma_endpoint(
    w: World,
    c: Option<Seq<char>>,
    ep: EndpointNode,
    method: Seq<char>,
    args: Seq<Expr>,
    env: Env,
    at: TrackView,
    fuel: nat,
)
    ensures
        moved(
            w,
            c,
            at,
            endpoint_at(w, ep, method, args, env, at, fuel),
            endpoint_at(w, ep, method, args, env, over(c, at), fuel),
        ),
    decreases fuel, 0int, args, 1int, 0int,
{
    if args.len() > 0 {
        let r = eval_at(w, args[0], env, at, fuel);
        lemma_eval(w, c, args[0], env, at, fuel);
        if let Ok(ValueView::Str(path)) = r.out {
            if method != "get"@ && method == "post"@ && args.len() > 1 {
                lemma_eval(w, c, args[1], env, r.at, fuel);
            }
        }
    }
}

proof fn lemma_sql(w: World, c: Option<Seq<char>>, args: Seq<Expr>, env: Env, at: TrackView, fuel: nat)
    ensures
        moved(w, c, at, sql_at(w, args, env, at, fuel), sql_at(w, args, env, over(c, at), fuel)),
    decreases fuel, 0int, args, 1int, 0int,
{
    if args.len() > 0 {
        let r = eval_at(w, args[0], env, at, fuel);
        lemma_eval(w, c, args[0], env, at, fuel);
        if r.out is Ok {
            lemma_sql_params(w, c, args, 1, env, r.at, fuel, Seq::empty());
        }
    }
}

proof fn lemma_sql_params(
    w: World,
    c: Option<Seq<char>>,
    args: Seq<Expr>,
    i: int,
    env: Env,
    at: TrackView,
    fuel: nat,
    seen: Seq<ValueView>,
)
    ensures
        moved(
            w,
            c,
            at,
            sql_params_at(w, args, i, env, at, fuel, seen),
            sql_params_at(w, args, i, env, over(c, at), fuel, seen),
        ),
    decreases fuel, 0int, args, 0int, args.len() - i,
{
    if 0 <= i < args.len() {
        let r = eval_at(w, args[i], env, at, fuel);
        lemma_eval(w, c, args[i], env, at, fuel);
        if let Ok(x) = r.out {
            lemma_sql_params(w, c, args, i + 1, env, r.at, fuel, seen.push(x));
        }
    }
}

proof fn lemma_exec(w: World, c: Option<Seq<char>>, args: Seq<Expr>, env: Env, at: TrackView, fuel: nat)
    ensures
        moved(w, c, at, exec_at(w, args, env, at, fuel), exec_at(w, args, env, over(c, at), fuel)),
    decreases fuel, 0int, args, 2int, 0int,
{
    lemma_sql(w, c, args, env, at, fuel);
}

proof fn lemma_query(
    w: World,
    c: Option<Seq<char>>,
    method: Seq<char>,
    args: Seq<Expr>,
    ty: Option<Seq<char>>,
    env: Env,
    at: TrackView,
    fuel: nat,
)
    ensures
        moved(
            w,
            c,
            at,
            query_at(w, method, args, ty, env, at, fuel),
            query_at(w, method, args, ty, env, over(c, at), fuel),
        ),
    decreases fuel, 0int, args, 2int, 0int,
{
    lemma_sql(w, c, args, env, at, fuel);
}

proof fn lemma_typed(
    w: World,
    c: Option<Seq<char>>,
    e: Expr,
    ty: Option<Seq<char>>,
    env: Env,
    at: TrackView,
    fuel: nat,
)
    ensures
        moved(w, c, at, typed_at(w, e, ty, env, at, fuel), typed_at(w, e, ty, env, over(c, at), fuel)),
    decreases fuel, 0int, e, 3int, 0int,
{
    lemma_eval(w, c, e, env, at, fuel);
    if let Expr::MethodCall { receiver, method, args } = e {
        if is_name(*receiver, "db"@) && (method@ == "query_one"@ || method@
            == "query"@) {
            lemma_query(w, c, method@, args@, ty, env, at, fuel);
        } else if method@ == "get"@ && named_endpoint(w.program, *receiver) is Some
            && typed_target(w.program, ty) is Some {
            lemma_endpoint(
                w,
                c,
                w.program.endpoints@[named_endpoint(w.program, *receiver)->0],
                "get"@,
                args@,
                env,
                at,
                fuel,
            );
        }
    }
}

proof fn lemma_call(
    w: World,
    c: Option<Seq<char>>,
    name: Seq<char>,
    args: Seq<ValueView>,
    at: TrackView,
    fuel: nat,
)
    ensures
        moved(w, c, at, call_at(w, name, args, at, fuel), call_at(w, name, args, over(c, at), fuel)),
    decreases fuel, 0int, w.program, 0int, 0int,
{
    match builtin_called(name, args) {
        Some(p) => {
            lemma_settled(w, c, p, at);
        },
        None => {
            let fs = w.program.functions@;
            if let Some(i) = function_index(fs, fs.len() as int, name) {
                if fuel > 0 {
                    let f = fs[i];
                    lemma_block(
                        w,
                        c,
                        f.body@,
                        0,
                        bound_params(
                            f.params@,
                            args,
                            shorter(f.params@.len(), args.len()),
                        ),
                        opt_text(f.return_type),
                        at,
                        (fuel - 1) as nat,
                    );
                }
            }
        },
    }
}

proof fn lemma_block(
    w: World,
    c: Option<Seq<char>>,
    ss: Seq<Stmt>,
    i: int,
    env: Env,
    ret: Option<Seq<char>>,
    at: TrackView,
    fuel: nat,
)
    ensures
        moved(
            w,
            c,
            at,
            block_at(w, ss, i, env, ret, at, fuel),
            block_at(w, ss, i, env, ret, over(c, at), fuel),
        ),
    decreases fuel, 1int, ss, 0int, ss.len() - i,
{
    if 0 <= i < ss.len() {
        let r = stmt_at(w, ss[i], env, ret, at, fuel);
        lemma_stmt(w, c, ss[i], env, ret, at, fuel);
        if let Ok((FlowView::Next, env2)) = r.out {
            lemma_block(w, c, ss, i + 1, env2, ret, r.at, fuel);
        }
    }
}

proof fn lemma_closed(
    w: World,
    c: Option<Seq<char>>,
    at: TrackView,
    r: Ran<(FlowView, Env)>,
    again: Ran<(FlowView, Env)>,
)
    requires
        moved(w, c, at, r, again),
    ensures
        moved(w, c, at, closed_at(w, r), closed_at(w, again)),
{
}

proof fn lemma_stmt(
    w: World,
    c: Option<Seq<char>>,
    s: Stmt,
    env: Env,
    ret: Option<Seq<char>>,
    at: TrackView,
    fuel: nat,
)
    ensures
        moved(w, c, at, stmt_at(w, s, env, ret, at, fuel), stmt_at(w, s, env, ret, over(c, at), fuel)),
    decreases fuel, 1int, s, 2int, 0int,
{
    match s {
        Stmt::Let { name, type_ann, value } => {
            lemma_typed(w, c, value, opt_text(type_ann), env, at, fuel);
        },
        Stmt::Assign { name, value } => {
            lemma_eval(w, c, value, env, at, fuel);
        },
        Stmt::Expr(e) => {
            lemma_eval(w, c, e, env, at, fuel);
        },
        Stmt::Return(e) => {
            lemma_typed(w, c, e, ret, env, at, fuel);
        },
        Stmt::Try { body, handler } => {
            lemma_block(w, c, body@, 0, env, ret, at, fuel);
        },
        Stmt::If { cond, then_body, else_body } => {
            let t = truth(eval_at(w, cond, env, at, fuel));
            lemma_eval(w, c, cond, env, at, fuel);
            if let Ok(b) = t.out {
                if b {
                    lemma_block(w, c, then_body@, 0, env, ret, t.at, fuel);
                } else {
                    lemma_block(w, c, else_body@, 0, env, ret, t.at, fuel);
                }
            }
        },
        Stmt::For { var, iter, body } => {
            let r = eval_at(w, iter, env, at, fuel);
            lemma_eval(w, c, iter, env, at, fuel);
            if let Ok(ValueView::List(items)) = r.out {
                lemma_for(w, c, var@, items, 0, body@, env, ret, r.at, fuel);
            }
        },
        Stmt::While { .. } => {
            lemma_while(w, c, s, env, ret, at, fuel);
        },
        Stmt::Break => {},
        Stmt::Continue => {},
        Stmt::Match { scrutinee, arms } => {
            let r = eval_at(w, scrutinee, env, at, fuel);
            lemma_eval(w, c, scrutinee, env, at, fuel);
            if let Ok(ValueView::Str(x)) = r.out {
                if let Some(i) = chosen_arm(arms@, x) {
                    if 0 <= i < arms@.len() {
                        lemma_block(w, c, arms@[i].body@, 0, env, ret, r.at, fuel);
                    }
                }
            }
        },
        Stmt::Transaction(body) => {
            let b = asked(w, EffectView::Begin, at);
            lemma_asked(w, c, EffectView::Begin, at);
            if b.out is Ok {
                lemma_block(w, c, body@, 0, env, ret, b.at, fuel);
                lemma_closed(
                    w,
                    c,
                    b.at,
                    block_at(w, body@, 0, env, ret, b.at, fuel),
                    block_at(w, body@, 0, env, ret, over(c, b.at), fuel),
                );
            }
        },
    }
}

proof fn lemma_for(
    w: World,
    c: Option<Seq<char>>,
    var: Seq<char>,
    items: Seq<ValueView>,
    k: int,
    body: Seq<Stmt>,
    env: Env,
    ret: Option<Seq<char>>,
    at: TrackView,
    fuel: nat,
)
    ensures
        moved(
            w,
            c,
            at,
            for_at(w, var, items, k, body, env, ret, at, fuel),
            for_at(w, var, items, k, body, env, ret, over(c, at), fuel),
        ),
    decreases fuel, 1int, body, 1int, items.len() - k,
{
    if 0 <= k < items.len() {
        let inner = env.insert(var, items[k]);
        let r = block_at(w, body, 0, inner, ret, at, fuel);
        lemma_block(w, c, body, 0, inner, ret, at, fuel);
        if let Ok((_, env2)) = r.out {
            lemma_for(w, c, var, items, k + 1, body, env2, ret, r.at, fuel);
        }
    }
}

proof fn lemma_while(
    w: World,
    c: Option<Seq<char>>,
    s: Stmt,
    env: Env,
    ret: Option<Seq<char>>,
    at: TrackView,
    fuel: nat,
)
    ensures
        moved(w, c, at, while_at(w, s, env, ret, at, fuel), while_at(w, s, env, ret, over(c, at), fuel)),
    decreases fuel, 1int, s, 1int, 0int,
{
    if let Stmt::While { cond, body } = s {
        let t = truth(eval_at(w, cond, env, at, fuel));
        lemma_eval(w, c, cond, env, at, fuel);
        if t.out == Ok::<bool, StopView>(true) {
            let r = block_at(w, body@, 0, env, ret, t.at, fuel);
            lemma_block(w, c, body@, 0, env, ret, t.at, fuel);
            if let Ok((_, env2)) = r.out {
                if fuel > 0 {
                    lemma_while(w, c, s, env2, ret, r.at, (fuel - 1) as nat);
                }
            }
        }
    }
}

/// What the interpreter is asked to run.
pub enum Job {
    Eval(Expr, Env),
    Call(Seq<char>, Seq<ValueView>),
    Route(Seq<Stmt>, Env, Option<Seq<char>>),
}

/// What a job comes to.
pub open spec fn job_at(w: World, job: Job, cookie: Option<Seq<char>>) -> Ran<ValueView> {
    match job {
        Job::Eval(e, env) => eval_at(w, e, env, begun(cookie), u64::MAX as nat),
        Job::Call(name, args) => call_at(w, name, args, begun(cookie), u64::MAX as nat),
        Job::Route(body, env, ret) => returned(
            block_at(w, body, 0, env, ret, begun(cookie), u64::MAX as nat),
        ),
    }
}

/// The cookie that a job leaves where there was none before it.
pub open spec fn recorded(w: World, job: Job) -> Option<Seq<char>> {
    left_cookie(None, job_at(w, job, None))
}

/// The cookie after the first `n` jobs, each in its world, one after the other.
pub open spec fn cookie_after(
    jobs: Seq<(World, Job)>,
    n: int,
    cookie: Option<Seq<char>>,
) -> Option<Seq<char>>
    decreases n,
{
    if n <= 0 || n > jobs.len() {
        cookie
    } else {
        let c = cookie_after(jobs, n - 1, cookie);
        left_cookie(c, job_at(jobs[n - 1].0, jobs[n - 1].1, c))
    }
}

/// `session.login` and `session.logout` record their cookie, whatever was recorded before, and a method
/// of the session that fails records none itself.
pub proof fn law_login_and_logout_record(
    w: World,
    method: Seq<char>,
    args: Seq<Expr>,
    env: Env,
    at: TrackView,
    fuel: nat,
)
    ensures
        ({
            let r = session_at(w, method, args, env, at, fuel);
            let id = eval_at(w, args[0], env, at, fuel);
            &&& method == "login"@ && args.len() > 0 && id.out is Ok && id.out->Ok_0 is Str
                ==> r.out is Ok && r.at.cookie == Some(login_cookie(id.out->Ok_0->Str_0, w.key))
            &&& method == "logout"@ ==> r.out is Ok && r.at.cookie == Some(logout_cookie())
            &&& !(r.out is Ok) ==> r.at.cookie == if method == "login"@ && args.len() > 0 {
                id.at.cookie
            } else {
                at.cookie
            }
        }),
{
    reveal_strlit("login");
    reveal_strlit("logout");
}

/// What a run comes to does not depend on the cookie that it finds. It leaves the cookie that it
/// records, which signs in or out, and where it records none the one that it found.
pub proof fn law_run_keeps_or_replaces_cookie(w: World, job: Job, cookie: Option<Seq<char>>)
    ensures
        job_at(w, job, cookie).out == job_at(w, job, None).out,
        left_cookie(cookie, job_at(w, job, cookie)) == later(cookie, recorded(w, job)),
        is_session_cookie(w, recorded(w, job)),
{
    match job {
        Job::Eval(e, env) => {
            lemma_eval(w, cookie, e, env, begun(None), u64::MAX as nat);
        },
        Job::Call(name, args) => {
            lemma_call(w, cookie, name, args, begun(None), u64::MAX as nat);
        },
        Job::Route(body, env, ret) => {
            lemma_block(w, cookie, body, 0, env, ret, begun(None), u64::MAX as nat);
        },
    }
}

/// What is taken is the cookie of the last run since the last take that logged in or out: after runs
/// that start with no cookie, `k` being the last that recorded one, its cookie is there, and none is
/// there where no run recorded one.
pub proof fn law_last_cookie_is_taken(jobs: Seq<(World, Job)>, k: int)
    requires
        k < jobs.len(),
        forall|j: int| k < j < jobs.len() ==> recorded(#[trigger] jobs[j].0, jobs[j].1) is None,
    ensures
        0 <= k && recorded(jobs[k].0, jobs[k].1) is Some ==> cookie_after(
            jobs,
            jobs.len() as int,
            None,
        ) == recorded(jobs[k].0, jobs[k].1),
        k < 0 ==> cookie_after(jobs, jobs.len() as int, None) is None,
{
    lemma_last(jobs, jobs.len() as int, k);
}

proof fn lemma_last(jobs: Seq<(World, Job)>, n: int, k: int)
    requires
        k < n <= jobs.len(),
        0 <= n,
        forall|j: int| k < j < n ==> recorded(#[trigger] jobs[j].0, jobs[j].1) is None,
    ensures
        0 <= k && recorded(jobs[k].0, jobs[k].1) is Some ==> cookie_after(jobs, n, None)
            == recorded(jobs[k].0, jobs[k].1),
        k < 0 ==> cookie_after(jobs, n, None) is None,
    decreases n,
{
    if n > 0 {
        let c = cookie_after(jobs, n - 1, None);
        law_run_keeps_or_replaces_cookie(jobs[n - 1].0, jobs[n - 1].1, c);
        if k < n - 1 {
            assert(recorded(jobs[n - 1].0, jobs[n - 1].1) is None);
            lemma_last(jobs, n - 1, k);
        }
    }
}

} // verus!
