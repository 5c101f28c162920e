//! The interpreter of `server` functions. It computes by itself; what only its host can do, it asks
//! for, and goes on, from the start of the call, when the answer is there.
use vstd::prelude::*;
use vstd::string::*;

use crate::arith::{negate, negated};
use crate::ast::{
    model_index, EndpointNode, Expr, FunctionNode, MatchArm, MatchPat, Param, PropertyNode, Stmt,
    UnOp, XeresProgram,
};
use crate::builtin::{
    at_index, binary, builtin, builtin_called, columns_view, list_method, list_method_called,
    nth_or_null, operated, string_method, text_method_called, Effect, EffectView, Plan, PlanView, Want,
};
use crate::emit::{starts_upper, starts_upper_text};
use crate::json::{decode, decode_some, jparse, number_texts, numbers_in, parsed};
use crate::resolve::opt_text;
use crate::session::{
    hex_nat, login_cookie, logout_cookie, secret_bytes, session_clear_cookie, session_secret, session_set_cookie, uid,
};
use crate::strmap::{map_of, StrMap};
use crate::text::{cat2, cat3, cat5, same, Parts};
use crate::types::{generic_inner, generic_inner_spec};
use crate::unicode::{upper_text, uppercase};
use crate::value::{
    copy_number, copy_value, json_str, json_text, lemma_fields_view, lemma_values_view, list_view,
    push_field, push_value, record_view, trace, trace_text, value_view, wire_json, wire_text,
    Number, NumberView, Value, ValueView,
};

verus! {

/// What the host answers.
#[derive(Debug)]
pub enum Reply {
    Numbers(Vec<Number>),
    Number(Number),
    Int(i64),
    Truth(bool),
    Nanos(u128),
    Text(String),
    Rows(Vec<Vec<Value>>),
    Done,
    Failed(String),
}

/// What the host answers, by its texts.
pub enum ReplyView {
    Numbers(Seq<NumberView>),
    Number(NumberView),
    Int(int),
    Truth(bool),
    Nanos(nat),
    Text(Seq<char>),
    Rows(Seq<Seq<ValueView>>),
    Done,
    Failed(Seq<char>),
}

/// The first `n` numbers, by their texts.
pub open spec fn numbers_view(ns: Seq<Number>, n: int) -> Seq<NumberView>
    decreases n,
{
    if n <= 0 || n > ns.len() {
        Seq::empty()
    } else {
        numbers_view(ns, n - 1).push(ns[n - 1]@)
    }
}

/// The first `n` rows, by their texts.
pub open spec fn rows_view(rs: Seq<Vec<Value>>, n: int) -> Seq<Seq<ValueView>>
    decreases n,
{
    if n <= 0 || n > rs.len() {
        Seq::empty()
    } else {
        rows_view(rs, n - 1).push(list_view(rs[n - 1]@))
    }
}

impl View for Reply {
    type V = ReplyView;

    open spec fn view(&self) -> ReplyView {
        match *self {
            Reply::Numbers(ns) => ReplyView::Numbers(numbers_view(ns@, ns@.len() as int)),
            Reply::Number(n) => ReplyView::Number(n@),
            Reply::Int(n) => ReplyView::Int(n as int),
            Reply::Truth(b) => ReplyView::Truth(b),
            Reply::Nanos(n) => ReplyView::Nanos(n as nat),
            Reply::Text(s) => ReplyView::Text(s@),
            Reply::Rows(rs) => ReplyView::Rows(rows_view(rs@, rs@.len() as int)),
            Reply::Done => ReplyView::Done,
            Reply::Failed(m) => ReplyView::Failed(m@),
        }
    }
}

/// The first `n` answers, by their texts.
pub open spec fn replies_view(rs: Seq<Reply>, n: int) -> Seq<ReplyView>
    decreases n,
{
    if n <= 0 || n > rs.len() {
        Seq::empty()
    } else {
        replies_view(rs, n - 1).push(rs[n - 1]@)
    }
}

proof fn lemma_numbers_view(ns: Seq<Number>, n: int)
    requires
        0 <= n <= ns.len(),
    ensures
        numbers_view(ns, n).len() == n,
        forall|i: int| 0 <= i < n ==> #[trigger] numbers_view(ns, n)[i] == ns[i]@,
    decreases n,
{
    if n > 0 {
        lemma_numbers_view(ns, n - 1);
    }
}

proof fn lemma_rows_view(rs: Seq<Vec<Value>>, n: int)
    requires
        0 <= n <= rs.len(),
    ensures
        rows_view(rs, n).len() == n,
        forall|i: int| 0 <= i < n ==> #[trigger] rows_view(rs, n)[i] == list_view(rs[i]@),
    decreases n,
{
    if n > 0 {
        lemma_rows_view(rs, n - 1);
    }
}

proof fn lemma_replies_view(rs: Seq<Reply>, n: int)
    requires
        0 <= n <= rs.len(),
    ensures
        replies_view(rs, n).len() == n,
        forall|i: int| 0 <= i < n ==> #[trigger] replies_view(rs, n)[i] == rs[i]@,
    decreases n,
{
    if n > 0 {
        lemma_replies_view(rs, n - 1);
    }
}

proof fn lemma_replies_prefix(a: Seq<Reply>, b: Seq<Reply>, n: int)
    requires
        0 <= n <= a.len(),
        n <= b.len(),
        forall|i: int| 0 <= i < n ==> a[i] == b[i],
    ensures
        replies_view(a, n) == replies_view(b, n),
    decreases n,
{
    if n > 0 {
        lemma_replies_prefix(a, b, n - 1);
    }
}

/// Why a run stops short of a value: with an error, on an integer that overflows, for an answer of the
/// host, on an answer that does not fit its question, or because it went too deep.
#[derive(Debug)]
pub enum Stop {
    Failed(String),
    Overflow,
    Need(Effect),
    Mismatch,
    Spent,
}

/// Why a run stops short of a value, by its texts.
pub enum StopView {
    Failed(Seq<char>),
    Overflow,
    Need(EffectView),
    Mismatch,
    Spent,
}

impl View for Stop {
    type V = StopView;

    open spec fn view(&self) -> StopView {
        match *self {
            Stop::Failed(m) => StopView::Failed(m@),
            Stop::Overflow => StopView::Overflow,
            Stop::Need(e) => StopView::Need(e@),
            Stop::Mismatch => StopView::Mismatch,
            Stop::Spent => StopView::Spent,
        }
    }
}

/// How a statement leaves its block.
#[derive(Debug)]
pub enum Flow {
    Next,
    Return(Value),
    Break,
    Continue,
}

/// How a statement leaves its block, by its texts.
pub enum FlowView {
    Next,
    Return(ValueView),
    Break,
    Continue,
}

impl View for Flow {
    type V = FlowView;

    open spec fn view(&self) -> FlowView {
        match *self {
            Flow::Next => FlowView::Next,
            Flow::Return(v) => FlowView::Return(v@),
            Flow::Break => FlowView::Break,
            Flow::Continue => FlowView::Continue,
        }
    }
}

/// How far a run has come: how many answers it has used, and the cookie that it has set.
#[derive(Debug)]
pub struct Track {
    pub pos: usize,
    pub cookie: Option<String>,
}

/// How far a run has come, by its texts.
pub struct TrackView {
    pub pos: int,
    pub cookie: Option<Seq<char>>,
}

impl View for Track {
    type V = TrackView;

    open spec fn view(&self) -> TrackView {
        TrackView { pos: self.pos as int, cookie: opt_text(self.cookie) }
    }
}

/// What a run can read: the program, the signed-in actor, the key of sessions, the host's answers.
pub struct World {
    pub program: XeresProgram,
    pub actor: Option<Seq<char>>,
    pub key: Seq<u8>,
    pub replies: Seq<ReplyView>,
}

/// The variables of a run.
pub type Env = Map<Seq<char>, ValueView>;

/// What a step of a run came to, and how far the run has come.
pub struct Ran<T> {
    pub out: Result<T, StopView>,
    pub at: TrackView,
}

/// A step that came to a value.
pub open spec fn ran<T>(v: T, at: TrackView) -> Ran<T> {
    Ran { out: Ok(v), at }
}

/// A step that stopped.
pub open spec fn stopped<T>(s: StopView, at: TrackView) -> Ran<T> {
    Ran { out: Err(s), at }
}

/// A step that failed.
pub open spec fn failed<T>(m: Seq<char>, at: TrackView) -> Ran<T> {
    Ran { out: Err(StopView::Failed(m)), at }
}

/// A question to the host: the next answer, or the need for one.
pub open spec fn asked(w: World, e: EffectView, at: TrackView) -> Ran<ReplyView> {
    if 0 <= at.pos < w.replies.len() {
        ran(w.replies[at.pos], TrackView { pos: at.pos + 1, cookie: at.cookie })
    } else {
        stopped(StopView::Need(e), at)
    }
}

/// The value that an answer stands for.
pub open spec fn answered(r: ReplyView) -> Result<ValueView, StopView> {
    match r {
        ReplyView::Number(n) => Ok(ValueView::Float(n)),
        ReplyView::Int(n) => Ok(ValueView::Int(n)),
        ReplyView::Truth(b) => Ok(ValueView::Bool(b)),
        ReplyView::Nanos(n) => Ok(ValueView::Str(hex_nat(n))),
        ReplyView::Text(s) => Ok(ValueView::Str(s)),
        ReplyView::Done => Ok(ValueView::Null),
        ReplyView::Failed(m) => Err(StopView::Failed(m)),
        _ => Err(StopView::Mismatch),
    }
}

/// What a plan comes to.
pub open spec fn settled(w: World, p: PlanView, at: TrackView) -> Ran<ValueView> {
    match p {
        PlanView::Value(v) => ran(v, at),
        PlanView::Failed(m) => failed(m, at),
        PlanView::Overflow => stopped(StopView::Overflow, at),
        PlanView::Ask(e) => {
            let a = asked(w, e, at);
            match a.out {
                Err(s) => stopped(s, a.at),
                Ok(r) => Ran { out: answered(r), at: a.at },
            }
        },
    }
}

/// The number that a fraction literal stands for.
pub open spec fn literal_at(w: World, t: Seq<char>, at: TrackView) -> Ran<ValueView> {
    let a = asked(w, EffectView::Numbers(seq![t]), at);
    match a.out {
        Err(s) => stopped(s, a.at),
        Ok(ReplyView::Numbers(ns)) => if ns.len() > 0 {
            ran(ValueView::Float(ns[0]), a.at)
        } else {
            stopped(StopView::Mismatch, a.at)
        },
        Ok(ReplyView::Failed(m)) => failed(m, a.at),
        Ok(_) => stopped(StopView::Mismatch, a.at),
    }
}

/// The index of the first of the first `n` fields of a record with this name.
pub open spec fn field_index(
    fs: Seq<(Seq<char>, ValueView)>,
    n: int,
    name: Seq<char>,
) -> Option<int>
    decreases n,
{
    if n <= 0 || n > fs.len() {
        None
    } else {
        match field_index(fs, n - 1, name) {
            Some(i) => Some(i),
            None => if fs[n - 1].0 == name {
                Some(n - 1)
            } else {
                None
            },
        }
    }
}

/// A field of a value.
pub open spec fn field_of(v: ValueView, field: Seq<char>) -> PlanView {
    match v {
        ValueView::Record(name, fs) => match field_index(fs, fs.len() as int, field) {
            Some(i) => PlanView::Value(fs[i].1),
            None => PlanView::Failed("no field `"@ + field + "`"@),
        },
        _ => PlanView::Failed("`."@ + field + "` on a non-record value"@),
    }
}

/// What a prefix operator does with its operand.
pub open spec fn unary_of(op: UnOp, v: ValueView) -> PlanView {
    match (op, v) {
        (UnOp::Neg, ValueView::Int(n)) => if n == i64::MIN {
            PlanView::Overflow
        } else {
            PlanView::Value(ValueView::Int(-n))
        },
        (UnOp::Neg, ValueView::Float(f)) => PlanView::Value(ValueView::Float(negated(f))),
        (UnOp::Not, ValueView::Bool(b)) => PlanView::Value(ValueView::Bool(!b)),
        _ => PlanView::Failed("invalid unary operand"@),
    }
}

/// The first `n` integers from `s` on.
pub open spec fn ints_from(s: int, n: int) -> Seq<ValueView>
    decreases n,
{
    if n <= 0 {
        Seq::empty()
    } else {
        ints_from(s, n - 1).push(ValueView::Int(s + n - 1))
    }
}

/// The list of a range of integers.
pub open spec fn range_of(s: int, e: int) -> ValueView {
    ValueView::List(ints_from(s, e - s))
}

/// What stands at an index of a value.
pub open spec fn index_of(b: ValueView, i: ValueView) -> PlanView {
    match (b, i) {
        (ValueView::List(items), ValueView::Int(n)) => PlanView::Value(nth_or_null(items, n)),
        _ => PlanView::Failed("index `[i]` needs a list and an Int"@),
    }
}

/// Whether an expression is a name.
pub open spec fn is_name(e: Expr, name: Seq<char>) -> bool {
    match e {
        Expr::Ident(n) => n@ == name,
        _ => false,
    }
}

/// The index of the first of the first `n` endpoints with this name.
pub open spec fn endpoint_index(es: Seq<EndpointNode>, n: int, name: Seq<char>) -> Option<int>
    decreases n,
{
    if n <= 0 || n > es.len() {
        None
    } else {
        match endpoint_index(es, n - 1, name) {
            Some(i) => Some(i),
            None => if es[n - 1].name@ == name {
                Some(n - 1)
            } else {
                None
            },
        }
    }
}

/// The endpoint that an expression names.
pub open spec fn named_endpoint(p: XeresProgram, e: Expr) -> Option<int> {
    match e {
        Expr::Ident(n) => endpoint_index(p.endpoints@, p.endpoints@.len() as int, n@),
        _ => None,
    }
}

/// The variable that holds an endpoint's token, where it declares one.
pub open spec fn token_of(ep: EndpointNode) -> Option<Seq<char>> {
    if ep.secrets@.len() > 0 {
        Some(upper_text(ep.name@) + "_"@ + upper_text(ep.secrets@[0].0@))
    } else {
        None
    }
}

/// A line of the log.
pub open spec fn log_line(level: Seq<char>, v: ValueView) -> Seq<char> {
    "{\"level\":\""@ + level + "\",\"msg\":"@ + json_text(
        match v {
            ValueView::Str(s) => s,
            _ => trace_text(v),
        },
    ) + "}"@
}

/// Whether a value can be a parameter of a database call.
pub open spec fn is_scalar(v: ValueView) -> bool {
    v is Str || v is Int || v is Float || v is Bool
}

/// The kind of column that a declared type is read from.
pub open spec fn wanted(ty: Seq<char>) -> Want {
    if ty == "Int"@ || ty == "DateTime"@ {
        Want::Int
    } else if ty == "Float"@ {
        Want::Float
    } else if ty == "Bool"@ {
        Want::Bool
    } else {
        Want::Text
    }
}

/// The columns that the first `n` fields of a model are read from.
pub open spec fn model_columns(props: Seq<PropertyNode>, n: int) -> Seq<(Seq<char>, Want)>
    decreases n,
{
    if n <= 0 || n > props.len() {
        Seq::empty()
    } else {
        model_columns(props, n - 1).push((props[n - 1].name@, wanted(props[n - 1].data_type@)))
    }
}

/// The model that the rows of a query are read into.
pub open spec fn query_model(
    p: XeresProgram,
    method: Seq<char>,
    ty: Option<Seq<char>>,
) -> Option<int> {
    match ty {
        None => None,
        Some(t) => if method == "query"@ {
            match generic_inner_spec("List"@, t) {
                Some(inner) => model_index(p.models@, inner),
                None => None,
            }
        } else {
            match generic_inner_spec("Optional"@, t) {
                Some(inner) => model_index(p.models@, inner),
                None => model_index(p.models@, t),
            }
        },
    }
}

/// The columns that a query reads: none where there is no model to read them into.
pub open spec fn query_columns(p: XeresProgram, m: Option<int>) -> Seq<(Seq<char>, Want)> {
    match m {
        Some(i) => model_columns(
            p.models@[i].properties@,
            p.models@[i].properties@.len() as int,
        ),
        None => Seq::empty(),
    }
}

/// The first `n` fields of a model from a row; null where the row has no more.
pub open spec fn row_fields(
    props: Seq<PropertyNode>,
    row: Seq<ValueView>,
    n: int,
) -> Seq<(Seq<char>, ValueView)>
    decreases n,
{
    if n <= 0 || n > props.len() {
        Seq::empty()
    } else {
        row_fields(props, row, n - 1).push((props[n - 1].name@, nth_or_null(row, n - 1)))
    }
}

/// The record of a row.
pub open spec fn row_record(p: XeresProgram, m: int, row: Seq<ValueView>) -> ValueView {
    ValueView::Record(
        p.models@[m].name@,
        row_fields(p.models@[m].properties@, row, p.models@[m].properties@.len() as int),
    )
}

/// The records of the first `n` rows.
pub open spec fn row_records(
    p: XeresProgram,
    m: int,
    rows: Seq<Seq<ValueView>>,
    n: int,
) -> Seq<ValueView>
    decreases n,
{
    if n <= 0 || n > rows.len() {
        Seq::empty()
    } else {
        row_records(p, m, rows, n - 1).push(row_record(p, m, rows[n - 1]))
    }
}

/// Whether a query for one row may come back without one.
pub open spec fn may_miss(ty: Option<Seq<char>>) -> bool {
    match ty {
        Some(t) => generic_inner_spec("Optional"@, t) is Some,
        None => false,
    }
}

/// What the rows of a query come to: a list of records, or the first record.
pub open spec fn rows_result(
    p: XeresProgram,
    method: Seq<char>,
    ty: Option<Seq<char>>,
    rows: Seq<Seq<ValueView>>,
) -> PlanView {
    match query_model(p, method, ty) {
        None => PlanView::Failed("db query: unknown return model"@),
        Some(m) => if method == "query_one"@ {
            if rows.len() > 0 {
                PlanView::Value(row_record(p, m, rows[0]))
            } else if may_miss(ty) {
                PlanView::Value(ValueView::Null)
            } else {
                PlanView::Failed("query_one: no rows"@)
            }
        } else {
            PlanView::Value(ValueView::List(row_records(p, m, rows, rows.len() as int)))
        },
    }
}

/// The declared type that an endpoint's response is decoded into: a model, or a list of one, or an
/// optional one.
pub open spec fn typed_target(p: XeresProgram, ty: Option<Seq<char>>) -> Option<Seq<char>> {
    match ty {
        None => None,
        Some(t) => {
            let bare = match generic_inner_spec("List"@, t) {
                Some(inner) => inner,
                None => match generic_inner_spec("Optional"@, t) {
                    Some(inner) => inner,
                    None => t,
                },
            };
            if model_index(p.models@, bare) is Some {
                Some(t)
            } else {
                None
            }
        },
    }
}

/// The first `n` numbers, each under its text.
pub open spec fn number_map(
    ts: Seq<Seq<char>>,
    ns: Seq<NumberView>,
    n: int,
) -> Map<Seq<char>, NumberView>
    decreases n,
{
    if n <= 0 || n > ts.len() || n > ns.len() {
        Map::empty()
    } else {
        number_map(ts, ns, n - 1).insert(ts[n - 1], ns[n - 1])
    }
}

/// The smaller of two lengths.
pub open spec fn shorter(a: nat, b: nat) -> int {
    if a <= b {
        a as int
    } else {
        b as int
    }
}

/// An endpoint's response body decoded into a declared type.
pub open spec fn decoded_at(w: World, body: ValueView, ty: Seq<char>, at: TrackView) -> Ran<
    ValueView,
> {
    let j = parsed(
        match body {
            ValueView::Str(s) => s,
            _ => ""@,
        },
    );
    let ts = numbers_in(j);
    if ts.len() == 0 {
        ran(decode_some(j, ty, w.program, Map::empty()), at)
    } else {
        let a = asked(w, EffectView::Numbers(ts), at);
        match a.out {
            Err(s) => stopped(s, a.at),
            Ok(ReplyView::Numbers(ns)) => ran(
                decode_some(j, ty, w.program, number_map(ts, ns, shorter(ts.len(), ns.len()))),
                a.at,
            ),
            Ok(ReplyView::Failed(m)) => failed(m, a.at),
            Ok(_) => stopped(StopView::Mismatch, a.at),
        }
    }
}

/// The index of the first of the first `n` functions with this name.
pub open spec fn function_index(fs: Seq<FunctionNode>, n: int, name: Seq<char>) -> Option<int>
    decreases n,
{
    if n <= 0 || n > fs.len() {
        None
    } else {
        match function_index(fs, n - 1, name) {
            Some(i) => Some(i),
            None => if fs[n - 1].name@ == name {
                Some(n - 1)
            } else {
                None
            },
        }
    }
}

/// Variables with the first `n` parameters of a function bound.
pub open spec fn bound_params(ps: Seq<Param>, vs: Seq<ValueView>, n: int) -> Env
    decreases n,
{
    if n <= 0 || n > ps.len() || n > vs.len() {
        Map::empty()
    } else {
        bound_params(ps, vs, n - 1).insert(ps[n - 1].name@, vs[n - 1])
    }
}

/// Variables with the first `n` parameters of a closure bound over them.
pub open spec fn bound_names(env: Env, names: Seq<String>, vs: Seq<ValueView>, n: int) -> Env
    decreases n,
{
    if n <= 0 || n > names.len() || n > vs.len() {
        env
    } else {
        bound_names(env, names, vs, n - 1).insert(names[n - 1]@, vs[n - 1])
    }
}

/// The variables that a closure's body sees.
pub open spec fn closure_env(env: Env, names: Seq<String>, vs: Seq<ValueView>) -> Env {
    bound_names(env, names, vs, shorter(names.len(), vs.len()))
}

/// Whether an arm's pattern is a variant.
pub open spec fn is_variant_arm(a: MatchArm, v: Seq<char>) -> bool {
    match a.pattern {
        MatchPat::Variant(n) => n@ == v,
        MatchPat::Wildcard => false,
    }
}

/// The index of the first of the first `n` arms of a variant.
pub open spec fn variant_arm(arms: Seq<MatchArm>, n: int, v: Seq<char>) -> Option<int>
    decreases n,
{
    if n <= 0 || n > arms.len() {
        None
    } else {
        match variant_arm(arms, n - 1, v) {
            Some(i) => Some(i),
            None => if is_variant_arm(arms[n - 1], v) {
                Some(n - 1)
            } else {
                None
            },
        }
    }
}

/// The index of the first of the first `n` arms of every variant.
pub open spec fn wildcard_arm(arms: Seq<MatchArm>, n: int) -> Option<int>
    decreases n,
{
    if n <= 0 || n > arms.len() {
        None
    } else {
        match wildcard_arm(arms, n - 1) {
            Some(i) => Some(i),
            None => if arms[n - 1].pattern is Wildcard {
                Some(n - 1)
            } else {
                None
            },
        }
    }
}

/// The arm that a variant takes.
pub open spec fn chosen_arm(arms: Seq<MatchArm>, v: Seq<char>) -> Option<int> {
    match variant_arm(arms, arms.len() as int, v) {
        Some(i) => Some(i),
        None => wildcard_arm(arms, arms.len() as int),
    }
}

/// The value of an expression.
pub open spec fn eval_at(w: World, e: Expr, env: Env, at: TrackView, fuel: nat) -> Ran<ValueView>
    decreases fuel, 0int, e, 2int, 0int,
{
    match e {
        Expr::Int(n) => ran(ValueView::Int(n as int), at),
        Expr::Float(t) => literal_at(w, t@, at),
        Expr::Str(s) => ran(ValueView::Str(s@), at),
        Expr::Bool(b) => ran(ValueView::Bool(b), at),
        Expr::NoneLit => ran(ValueView::Null, at),
        Expr::Ident(v) => if env.dom().contains(v@) {
            ran(env[v@], at)
        } else {
            failed("unknown variable `"@ + v@ + "`"@, at)
        },
        Expr::Field { base, field } => if is_name(*base, "session"@) && field@ == "actor"@ {
            ran(
                match w.actor {
                    Some(id) => ValueView::Str(id),
                    None => ValueView::Null,
                },
                at,
            )
        } else if *base is Ident && starts_upper_text(base->Ident_0@) {
            ran(ValueView::Str(field@), at)
        } else {
            let r = eval_at(w, *base, env, at, fuel);
            match r.out {
                Err(s) => stopped(s, r.at),
                Ok(v) => settled(w, field_of(v, field@), r.at),
            }
        },
        Expr::Unary { op, expr } => {
            let r = eval_at(w, *expr, env, at, fuel);
            match r.out {
                Err(s) => stopped(s, r.at),
                Ok(v) => settled(w, unary_of(op, v), r.at),
            }
        },
        Expr::Binary { op, left, right } => {
            let l = eval_at(w, *left, env, at, fuel);
            match l.out {
                Err(s) => stopped(s, l.at),
                Ok(a) => {
                    let r = eval_at(w, *right, env, l.at, fuel);
                    match r.out {
                        Err(s) => stopped(s, r.at),
                        Ok(b) => settled(w, operated(op, a, b), r.at),
                    }
                },
            }
        },
        Expr::Call { callee, args } => {
            let r = evals_at(w, args@, 0, env, at, fuel, Seq::empty());
            match r.out {
                Err(s) => stopped(s, r.at),
                Ok(vs) => if fuel == 0 {
                    stopped(StopView::Spent, r.at)
                } else {
                    call_at(w, callee@, vs, r.at, (fuel - 1) as nat)
                },
            }
        },
        Expr::Declassify(inner) => eval_at(w, *inner, env, at, fuel),
        Expr::Raw(inner) => eval_at(w, *inner, env, at, fuel),
        Expr::Await(inner) => eval_at(w, *inner, env, at, fuel),
        Expr::Record { name, fields } => {
            let r = fields_at(w, fields@, 0, env, at, fuel, Seq::empty());
            match r.out {
                Err(s) => stopped(s, r.at),
                Ok(fs) => ran(ValueView::Record(name@, fs), r.at),
            }
        },
        Expr::ListLit(items) => {
            let r = evals_at(w, items@, 0, env, at, fuel, Seq::empty());
            match r.out {
                Err(s) => stopped(s, r.at),
                Ok(vs) => ran(ValueView::List(vs), r.at),
            }
        },
        Expr::Ternary { cond, yes, otherwise } => {
            let r = eval_at(w, *cond, env, at, fuel);
            match r.out {
                Err(s) => stopped(s, r.at),
                Ok(ValueView::Bool(b)) => if b {
                    eval_at(w, *yes, env, r.at, fuel)
                } else {
                    eval_at(w, *otherwise, env, r.at, fuel)
                },
                Ok(_) => failed("ternary condition must be a boolean"@, r.at),
            }
        },
        Expr::Range { start, end } => {
            let l = eval_at(w, *start, env, at, fuel);
            match l.out {
                Err(s) => stopped(s, l.at),
                Ok(ValueView::Int(a)) => {
                    let r = eval_at(w, *end, env, l.at, fuel);
                    match r.out {
                        Err(s) => stopped(s, r.at),
                        Ok(ValueView::Int(b)) => ran(range_of(a, b), r.at),
                        Ok(_) => failed("range bounds must be Int"@, r.at),
                    }
                },
                Ok(_) => failed("range bounds must be Int"@, l.at),
            }
        },
        Expr::Index { base, index } => {
            let l = eval_at(w, *base, env, at, fuel);
            match l.out {
                Err(s) => stopped(s, l.at),
                Ok(b) => {
                    let r = eval_at(w, *index, env, l.at, fuel);
                    match r.out {
                        Err(s) => stopped(s, r.at),
                        Ok(i) => settled(w, index_of(b, i), r.at),
                    }
                },
            }
        },
        Expr::Closure { params, body } => failed(
            "a closure may only be passed to map/filter/reduce"@,
            at,
        ),
        Expr::MethodCall { receiver, method, args } => method_at(w, e, env, at, fuel),
    }
}

/// The values of the expressions from the `i`th on, after those seen so far.
pub open spec fn evals_at(
    w: World,
    es: Seq<Expr>,
    i: int,
    env: Env,
    at: TrackView,
    fuel: nat,
    seen: Seq<ValueView>,
) -> Ran<Seq<ValueView>>
    decreases fuel, 0int, es, 0int, es.len() - i,
{
    if i < 0 || i >= es.len() {
        ran(seen, at)
    } else {
        let r = eval_at(w, es[i], env, at, fuel);
        match r.out {
            Err(s) => stopped(s, r.at),
            Ok(v) => evals_at(w, es, i + 1, env, r.at, fuel, seen.push(v)),
        }
    }
}

/// The fields of a record from the `i`th on, after those seen so far.
pub open spec fn fields_at(
    w: World,
    fs: Seq<(String, Expr)>,
    i: int,
    env: Env,
    at: TrackView,
    fuel: nat,
    seen: Seq<(Seq<char>, ValueView)>,
) -> Ran<Seq<(Seq<char>, ValueView)>>
    decreases fuel, 0int, fs, 0int, fs.len() - i,
{
    if i < 0 || i >= fs.len() {
        ran(seen, at)
    } else {
        let r = eval_at(w, fs[i].1, env, at, fuel);
        match r.out {
            Err(s) => stopped(s, r.at),
            Ok(v) => fields_at(w, fs, i + 1, env, r.at, fuel, seen.push((fs[i].0@, v))),
        }
    }
}

/// What a method call comes to.
pub open spec fn method_at(w: World, e: Expr, env: Env, at: TrackView, fuel: nat) -> Ran<ValueView>
    decreases fuel, 0int, e, 1int, 0int,
{
    match e {
        Expr::MethodCall { receiver, method, args } => if is_name(*receiver, "session"@) {
            session_at(w, method@, args@, env, at, fuel)
        } else if is_name(*receiver, "log"@) {
            log_at(w, method@, args@, env, at, fuel)
        } else if named_endpoint(w.program, *receiver) is Some {
            endpoint_at(
                w,
                w.program.endpoints@[named_endpoint(w.program, *receiver)->0],
                method@,
                args@,
                env,
                at,
                fuel,
            )
        } else if is_name(*receiver, "db"@) && method@ == "exec"@ {
            exec_at(w, args@, env, at, fuel)
        } else {
            let r = eval_at(w, *receiver, env, at, fuel);
            match r.out {
                Err(s) => stopped(s, r.at),
                Ok(recv) => value_method_at(w, recv, method@, args@, env, r.at, fuel),
            }
        },
        _ => ran(ValueView::Null, at),
    }
}

/// What calling a method of a value comes to.
pub open spec fn value_method_at(
    w: World,
    recv: ValueView,
    method: Seq<char>,
    args: Seq<Expr>,
    env: Env,
    at: TrackView,
    fuel: nat,
) -> Ran<ValueView>
    decreases fuel, 0int, args, 1int, 0int,
{
    if method == "or"@ {
        if recv is Null {
            if args.len() == 0 {
                failed("`or` needs a default"@, at)
            } else {
                eval_at(w, args[0], env, at, fuel)
            }
        } else {
            ran(recv, at)
        }
    } else {
        match recv {
            ValueView::Str(s) => {
                let r = evals_at(w, args, 0, env, at, fuel, Seq::empty());
                match r.out {
                    Err(s) => stopped(s, r.at),
                    Ok(vs) => settled(w, text_method_called(s, method, vs), r.at),
                }
            },
            ValueView::List(items) => if method == "map"@ {
                map_call(w, items, args, env, at, fuel)
            } else if method == "filter"@ {
                filter_call(w, items, args, env, at, fuel)
            } else if method == "reduce"@ {
                reduce_call(w, items, args, env, at, fuel)
            } else {
                let r = evals_at(w, args, 0, env, at, fuel, Seq::empty());
                match r.out {
                    Err(s) => stopped(s, r.at),
                    Ok(vs) => settled(w, list_method_called(items, method, vs), r.at),
                }
            },
            _ => failed("unsupported method call in server runtime"@, at),
        }
    }
}

/// `map` on a list.
pub open spec fn map_call(
    w: World,
    items: Seq<ValueView>,
    args: Seq<Expr>,
    env: Env,
    at: TrackView,
    fuel: nat,
) -> Ran<ValueView>
    decreases fuel, 0int, args, 0int, 0int,
{
    if args.len() > 0 && args[0] is Closure {
        map_at(
            w,
            items,
            0,
            args[0]->Closure_params@,
            *args[0]->Closure_body,
            env,
            at,
            fuel,
            Seq::empty(),
        )
    } else {
        failed("expected a closure argument (`x -> …`)"@, at)
    }
}

/// `filter` on a list.
pub open spec fn filter_call(
    w: World,
    items: Seq<ValueView>,
    args: Seq<Expr>,
    env: Env,
    at: TrackView,
    fuel: nat,
) -> Ran<ValueView>
    decreases fuel, 0int, args, 0int, 0int,
{
    if args.len() > 0 && args[0] is Closure {
        filter_at(
            w,
            items,
            0,
            args[0]->Closure_params@,
            *args[0]->Closure_body,
            env,
            at,
            fuel,
            Seq::empty(),
        )
    } else {
        failed("expected a closure argument (`x -> …`)"@, at)
    }
}

/// `reduce` on a list.
pub open spec fn reduce_call(
    w: World,
    items: Seq<ValueView>,
    args: Seq<Expr>,
    env: Env,
    at: TrackView,
    fuel: nat,
) -> Ran<ValueView>
    decreases fuel, 0int, args, 0int, 0int,
{
    if args.len() == 0 {
        failed("`reduce` needs an init value"@, at)
    } else {
        let r = eval_at(w, args[0], env, at, fuel);
        match r.out {
            Err(s) => stopped(s, r.at),
            Ok(init) => if args.len() > 1 && args[1] is Closure {
                reduce_at(
                    w,
                    items,
                    0,
                    args[1]->Closure_params@,
                    *args[1]->Closure_body,
                    env,
                    r.at,
                    fuel,
                    init,
                )
            } else {
                failed("expected a closure argument (`x -> …`)"@, r.at)
            },
        }
    }
}

/// The items from the `i`th on, each mapped, after those mapped so far.
pub open spec fn map_at(
    w: World,
    items: Seq<ValueView>,
    i: int,
    names: Seq<String>,
    body: Expr,
    env: Env,
    at: TrackView,
    fuel: nat,
    seen: Seq<ValueView>,
) -> Ran<ValueView>
    decreases fuel, 0int, body, 3int, items.len() - i,
{
    if i < 0 || i >= items.len() {
        ran(ValueView::List(seen), at)
    } else {
        let r = eval_at(w, body, closure_env(env, names, seq![items[i]]), at, fuel);
        match r.out {
            Err(s) => stopped(s, r.at),
            Ok(v) => map_at(w, items, i + 1, names, body, env, r.at, fuel, seen.push(v)),
        }
    }
}

/// The items from the `i`th on that a closure holds of, after those kept so far.
pub open spec fn filter_at(
    w: World,
    items: Seq<ValueView>,
    i: int,
    names: Seq<String>,
    body: Expr,
    env: Env,
    at: TrackView,
    fuel: nat,
    seen: Seq<ValueView>,
) -> Ran<ValueView>
    decreases fuel, 0int, body, 3int, items.len() - i,
{
    if i < 0 || i >= items.len() {
        ran(ValueView::List(seen), at)
    } else {
        let r = eval_at(w, body, closure_env(env, names, seq![items[i]]), at, fuel);
        match r.out {
            Err(s) => stopped(s, r.at),
            Ok(ValueView::Bool(b)) => filter_at(
                w,
                items,
                i + 1,
                names,
                body,
                env,
                r.at,
                fuel,
                if b {
                    seen.push(items[i])
                } else {
                    seen
                },
            ),
            Ok(_) => failed("`filter` predicate must return a Bool"@, r.at),
        }
    }
}

/// The items from the `i`th on, folded into what has come together so far.
pub open spec fn reduce_at(
    w: World,
    items: Seq<ValueView>,
    i: int,
    names: Seq<String>,
    body: Expr,
    env: Env,
    at: TrackView,
    fuel: nat,
    acc: ValueView,
) -> Ran<ValueView>
    decreases fuel, 0int, body, 3int, items.len() - i,
{
    if i < 0 || i >= items.len() {
        ran(acc, at)
    } else {
        let r = eval_at(w, body, closure_env(env, names, seq![acc, items[i]]), at, fuel);
        match r.out {
            Err(s) => stopped(s, r.at),
            Ok(v) => reduce_at(w, items, i + 1, names, body, env, r.at, fuel, v),
        }
    }
}

/// What a method of the session comes to: it sets the cookie that signs in or out.
pub open spec fn session_at(
    w: World,
    method: Seq<char>,
    args: Seq<Expr>,
    env: Env,
    at: TrackView,
    fuel: nat,
) -> Ran<ValueView>
    decreases fuel, 0int, args, 1int, 0int,
{
    if method == "login"@ {
        if args.len() == 0 {
            failed("session.login(id) needs an id"@, at)
        } else {
            let r = eval_at(w, args[0], env, at, fuel);
            match r.out {
                Err(s) => stopped(s, r.at),
                Ok(ValueView::Str(id)) => ran(
                    ValueView::Null,
                    TrackView { pos: r.at.pos, cookie: Some(login_cookie(id, w.key)) },
                ),
                Ok(_) => failed("session.login expects a String id"@, r.at),
            }
        }
    } else if method == "logout"@ {
        ran(ValueView::Null, TrackView { pos: at.pos, cookie: Some(logout_cookie()) })
    } else {
        failed("session has no method `"@ + method + "`"@, at)
    }
}

/// What a method of the log comes to: it hands a line to the host.
pub open spec fn log_at(
    w: World,
    method: Seq<char>,
    args: Seq<Expr>,
    env: Env,
    at: TrackView,
    fuel: nat,
) -> Ran<ValueView>
    decreases fuel, 0int, args, 1int, 0int,
{
    if args.len() == 0 {
        failed("log needs a message"@, at)
    } else {
        let r = eval_at(w, args[0], env, at, fuel);
        match r.out {
            Err(s) => stopped(s, r.at),
            Ok(v) => {
                let a = asked(w, EffectView::Log(log_line(method, v)), r.at);
                match a.out {
                    Err(s) => stopped(s, a.at),
                    Ok(_) => ran(ValueView::Null, a.at),
                }
            },
        }
    }
}

/// What a method of an endpoint comes to. Its host is fixed; only the path is the caller's.
pub open spec fn endpoint_at(
    w: World,
    ep: EndpointNode,
    method: Seq<char>,
    args: Seq<Expr>,
    env: Env,
    at: TrackView,
    fuel: nat,
) -> Ran<ValueView>
    decreases fuel, 0int, args, 1int, 0int,
{
    if args.len() == 0 {
        failed("endpoint needs a path"@, at)
    } else {
        let r = eval_at(w, args[0], env, at, fuel);
        match r.out {
            Err(s) => stopped(s, r.at),
            Ok(ValueView::Str(path)) => {
                let url = ep.base@ + path;
                if method == "get"@ {
                    settled(w, PlanView::Ask(EffectView::Get(url, token_of(ep))), r.at)
                } else if method == "post"@ {
                    if args.len() > 1 {
                        let b = eval_at(w, args[1], env, r.at, fuel);
                        match b.out {
                            Err(s) => stopped(s, b.at),
                            Ok(v) => settled(
                                w,
                                PlanView::Ask(
                                    EffectView::Post(
                                        url,
                                        match v {
                                            ValueView::Str(s) => s,
                                            _ => wire_text(v, w.program),
                                        },
                                        token_of(ep),
                                    ),
                                ),
                                b.at,
                            ),
                        }
                    } else {
                        settled(w, PlanView::Ask(EffectView::Post(url, ""@, token_of(ep))), r.at)
                    }
                } else {
                    failed("endpoint has no verb `"@ + method + "`"@, r.at)
                }
            },
            Ok(_) => failed("endpoint path must be a string"@, r.at),
        }
    }
}

/// The SQL text and the parameters of a database call.
pub open spec fn sql_at(w: World, args: Seq<Expr>, env: Env, at: TrackView, fuel: nat) -> Ran<
    (Seq<char>, Seq<ValueView>),
>
    decreases fuel, 0int, args, 1int, 0int,
{
    if args.len() == 0 {
        failed("db call needs SQL"@, at)
    } else {
        let r = eval_at(w, args[0], env, at, fuel);
        match r.out {
            Err(s) => stopped(s, r.at),
            Ok(ValueView::Str(sql)) => {
                let ps = sql_params_at(w, args, 1, env, r.at, fuel, Seq::empty());
                match ps.out {
                    Err(s) => stopped(s, ps.at),
                    Ok(vs) => ran((sql, vs), ps.at),
                }
            },
            Ok(_) => failed("db call: SQL must be a string"@, r.at),
        }
    }
}

/// The parameters of a database call from the `i`th argument on, after those seen so far.
pub open spec fn sql_params_at(
    w: World,
    args: Seq<Expr>,
    i: int,
    env: Env,
    at: TrackView,
    fuel: nat,
    seen: Seq<ValueView>,
) -> Ran<Seq<ValueView>>
    decreases fuel, 0int, args, 0int, args.len() - i,
{
    if i < 0 || i >= args.len() {
        ran(seen, at)
    } else {
        let r = eval_at(w, args[i], env, at, fuel);
        match r.out {
            Err(s) => stopped(s, r.at),
            Ok(v) => if is_scalar(v) {
                sql_params_at(w, args, i + 1, env, r.at, fuel, seen.push(v))
            } else {
                failed("db param must be a scalar"@, r.at)
            },
        }
    }
}

/// What a database statement comes to.
pub open spec fn exec_at(w: World, args: Seq<Expr>, env: Env, at: TrackView, fuel: nat) -> Ran<
    ValueView,
>
    decreases fuel, 0int, args, 2int, 0int,
{
    let r = sql_at(w, args, env, at, fuel);
    match r.out {
        Err(s) => stopped(s, r.at),
        Ok(call) => settled(w, PlanView::Ask(EffectView::Exec(call.0, call.1)), r.at),
    }
}

/// What a database query comes to, read into a declared type.
pub open spec fn query_at(
    w: World,
    method: Seq<char>,
    args: Seq<Expr>,
    ty: Option<Seq<char>>,
    env: Env,
    at: TrackView,
    fuel: nat,
) -> Ran<ValueView>
    decreases fuel, 0int, args, 2int, 0int,
{
    let r = sql_at(w, args, env, at, fuel);
    match r.out {
        Err(s) => stopped(s, r.at),
        Ok(call) => {
            let cols = query_columns(w.program, query_model(w.program, method, ty));
            let a = asked(w, EffectView::Query(call.0, call.1, cols), r.at);
            match a.out {
                Err(s) => stopped(s, a.at),
                Ok(ReplyView::Rows(rows)) => settled(
                    w,
                    rows_result(w.program, method, ty, rows),
                    a.at,
                ),
                Ok(ReplyView::Failed(m)) => failed(m, a.at),
                Ok(_) => stopped(StopView::Mismatch, a.at),
            }
        },
    }
}

/// The value of an expression where a type is declared: the rows of a query and the response of an
/// endpoint are read into it.
pub open spec fn typed_at(
    w: World,
    e: Expr,
    ty: Option<Seq<char>>,
    env: Env,
    at: TrackView,
    fuel: nat,
) -> Ran<ValueView>
    decreases fuel, 0int, e, 3int, 0int,
{
    match e {
        Expr::MethodCall { receiver, method, args } => if is_name(*receiver, "db"@) && (method@
            == "query_one"@ || method@ == "query"@) {
            query_at(w, method@, args@, ty, env, at, fuel)
        } else if method@ == "get"@ && named_endpoint(w.program, *receiver) is Some
            && typed_target(w.program, ty) is Some {
            let r = endpoint_at(
                w,
                w.program.endpoints@[named_endpoint(w.program, *receiver)->0],
                "get"@,
                args@,
                env,
                at,
                fuel,
            );
            match r.out {
                Err(s) => stopped(s, r.at),
                Ok(body) => decoded_at(w, body, typed_target(w.program, ty)->0, r.at),
            }
        } else {
            eval_at(w, e, env, at, fuel)
        },
        _ => eval_at(w, e, env, at, fuel),
    }
}

/// What calling a function by its name comes to.
pub open spec fn call_at(
    w: World,
    name: Seq<char>,
    args: Seq<ValueView>,
    at: TrackView,
    fuel: nat,
) -> Ran<ValueView>
    decreases fuel, 0int, w.program, 0int, 0int,
{
    match builtin_called(name, args) {
        Some(p) => settled(w, p, at),
        None => match function_index(
            w.program.functions@,
            w.program.functions@.len() as int,
            name,
        ) {
            None => failed("no such function `"@ + name + "`"@, at),
            Some(i) => if fuel == 0 {
                stopped(StopView::Spent, at)
            } else {
                let f = w.program.functions@[i];
                let env = bound_params(f.params@, args, shorter(f.params@.len(), args.len()));
                returned(
                    block_at(
                        w,
                        f.body@,
                        0,
                        env,
                        opt_text(f.return_type),
                        at,
                        (fuel - 1) as nat,
                    ),
                )
            },
        },
    }
}

/// What a body returns: null where it runs off its end.
pub open spec fn returned(r: Ran<(FlowView, Env)>) -> Ran<ValueView> {
    match r.out {
        Err(s) => stopped(s, r.at),
        Ok((FlowView::Return(v), _)) => ran(v, r.at),
        Ok(_) => ran(ValueView::Null, r.at),
    }
}

/// What the statements from the `i`th on come to.
pub open spec fn block_at(
    w: World,
    ss: Seq<Stmt>,
    i: int,
    env: Env,
    ret: Option<Seq<char>>,
    at: TrackView,
    fuel: nat,
) -> Ran<(FlowView, Env)>
    decreases fuel, 1int, ss, 0int, ss.len() - i,
{
    if i < 0 || i >= ss.len() {
        ran((FlowView::Next, env), at)
    } else {
        let r = stmt_at(w, ss[i], env, ret, at, fuel);
        match r.out {
            Ok((FlowView::Next, env2)) => block_at(w, ss, i + 1, env2, ret, r.at, fuel),
            _ => r,
        }
    }
}

/// Whether a condition holds.
pub open spec fn truth(r: Ran<ValueView>) -> Ran<bool> {
    match r.out {
        Err(s) => stopped(s, r.at),
        Ok(ValueView::Bool(b)) => ran(b, r.at),
        Ok(_) => failed("condition must be a boolean"@, r.at),
    }
}

/// What a statement comes to.
pub open spec fn stmt_at(
    w: World,
    s: Stmt,
    env: Env,
    ret: Option<Seq<char>>,
    at: TrackView,
    fuel: nat,
) -> Ran<(FlowView, Env)>
    decreases fuel, 1int, s, 2int, 0int,
{
    match s {
        Stmt::Let { name, type_ann, value } => {
            let r = typed_at(w, value, opt_text(type_ann), env, at, fuel);
            match r.out {
                Err(x) => stopped(x, r.at),
                Ok(v) => ran((FlowView::Next, env.insert(name@, v)), r.at),
            }
        },
        Stmt::Assign { name, value } => {
            let r = eval_at(w, value, env, at, fuel);
            match r.out {
                Err(x) => stopped(x, r.at),
                Ok(v) => ran((FlowView::Next, env.insert(name@, v)), r.at),
            }
        },
        Stmt::Expr(e) => {
            let r = eval_at(w, e, env, at, fuel);
            match r.out {
                Err(x) => stopped(x, r.at),
                Ok(v) => ran((FlowView::Next, env), r.at),
            }
        },
        Stmt::Return(e) => {
            let r = typed_at(w, e, ret, env, at, fuel);
            match r.out {
                Err(x) => stopped(x, r.at),
                Ok(v) => ran((FlowView::Return(v), env), r.at),
            }
        },
        Stmt::Try { body, handler } => block_at(w, body@, 0, env, ret, at, fuel),
        Stmt::If { cond, then_body, else_body } => {
            let c = truth(eval_at(w, cond, env, at, fuel));
            match c.out {
                Err(x) => stopped(x, c.at),
                Ok(b) => if b {
                    block_at(w, then_body@, 0, env, ret, c.at, fuel)
                } else {
                    block_at(w, else_body@, 0, env, ret, c.at, fuel)
                },
            }
        },
        Stmt::For { var, iter, body } => {
            let r = eval_at(w, iter, env, at, fuel);
            match r.out {
                Err(x) => stopped(x, r.at),
                Ok(ValueView::List(items)) => for_at(
                    w,
                    var@,
                    items,
                    0,
                    body@,
                    env,
                    ret,
                    r.at,
                    fuel,
                ),
                Ok(_) => failed("`for` expects a list or range"@, r.at),
            }
        },
        Stmt::While { cond, body } => while_at(w, s, env, ret, at, fuel),
        Stmt::Break => ran((FlowView::Break, env), at),
        Stmt::Continue => ran((FlowView::Continue, env), at),
        Stmt::Match { scrutinee, arms } => {
            let r = eval_at(w, scrutinee, env, at, fuel);
            match r.out {
                Err(x) => stopped(x, r.at),
                Ok(ValueView::Str(v)) => match chosen_arm(arms@, v) {
                    Some(i) => if 0 <= i < arms@.len() {
                        block_at(w, arms@[i].body@, 0, env, ret, r.at, fuel)
                    } else {
                        ran((FlowView::Next, env), r.at)
                    },
                    None => ran((FlowView::Next, env), r.at),
                },
                Ok(_) => failed("`match` scrutinee must be an enum"@, r.at),
            }
        },
        Stmt::Transaction(body) => {
            let b = asked(w, EffectView::Begin, at);
            match b.out {
                Err(x) => stopped(x, b.at),
                Ok(ReplyView::Done) => closed_at(w, block_at(w, body@, 0, env, ret, b.at, fuel)),
                Ok(ReplyView::Failed(m)) => failed(m, b.at),
                Ok(_) => stopped(StopView::Mismatch, b.at),
            }
        },
    }
}

/// The end of a transaction: kept where its body came to an end, undone where it failed.
pub open spec fn closed_at(w: World, r: Ran<(FlowView, Env)>) -> Ran<(FlowView, Env)> {
    match r.out {
        Ok(x) => {
            let e = asked(w, EffectView::End(true), r.at);
            match e.out {
                Err(s) => stopped(s, e.at),
                Ok(_) => ran(x, e.at),
            }
        },
        Err(StopView::Failed(m)) => {
            let e = asked(w, EffectView::End(false), r.at);
            match e.out {
                Err(s) => stopped(s, e.at),
                Ok(_) => failed(m, e.at),
            }
        },
        Err(s) => r,
    }
}

/// What a `for` loop comes to from its `k`th item on.
pub open spec fn for_at(
    w: World,
    var: Seq<char>,
    items: Seq<ValueView>,
    k: int,
    body: Seq<Stmt>,
    env: Env,
    ret: Option<Seq<char>>,
    at: TrackView,
    fuel: nat,
) -> Ran<(FlowView, Env)>
    decreases fuel, 1int, body, 1int, items.len() - k,
{
    if k < 0 || k >= items.len() {
        ran((FlowView::Next, env), at)
    } else {
        let r = block_at(w, body, 0, env.insert(var, items[k]), ret, at, fuel);
        match r.out {
            Err(x) => r,
            Ok((FlowView::Break, env2)) => ran((FlowView::Next, env2), r.at),
            Ok((FlowView::Return(v), env2)) => r,
            Ok((_, env2)) => for_at(w, var, items, k + 1, body, env2, ret, r.at, fuel),
        }
    }
}

/// What a `while` loop comes to.
pub open spec fn while_at(
    w: World,
    s: Stmt,
    env: Env,
    ret: Option<Seq<char>>,
    at: TrackView,
    fuel: nat,
) -> Ran<(FlowView, Env)>
    decreases fuel, 1int, s, 1int, 0int,
{
    match s {
        Stmt::While { cond, body } => {
            let c = truth(eval_at(w, cond, env, at, fuel));
            match c.out {
                Err(x) => stopped(x, c.at),
                Ok(b) => if !b {
                    ran((FlowView::Next, env), c.at)
                } else {
                    let r = block_at(w, body@, 0, env, ret, c.at, fuel);
                    match r.out {
                        Err(x) => r,
                        Ok((FlowView::Break, env2)) => ran((FlowView::Next, env2), r.at),
                        Ok((FlowView::Return(v), env2)) => r,
                        Ok((_, env2)) => if fuel == 0 {
                            stopped(StopView::Spent, r.at)
                        } else {
                            while_at(w, s, env2, ret, r.at, (fuel - 1) as nat)
                        },
                    }
                },
            }
        },
        _ => ran((FlowView::Next, env), at),
    }
}

/// A result of a run, by its texts.
pub open spec fn gave(r: Result<Value, Stop>, at: Track) -> Ran<ValueView> {
    Ran {
        out: match r {
            Ok(v) => Ok(v@),
            Err(s) => Err(s@),
        },
        at: at@,
    }
}

/// A list that a run came to, by its texts.
pub open spec fn gave_list(r: Result<Vec<Value>, Stop>, at: Track) -> Ran<Seq<ValueView>> {
    Ran {
        out: match r {
            Ok(vs) => Ok(list_view(vs@)),
            Err(s) => Err(s@),
        },
        at: at@,
    }
}

/// Fields that a run came to, by their texts.
pub open spec fn gave_fields(r: Result<Vec<(String, Value)>, Stop>, at: Track) -> Ran<
    Seq<(Seq<char>, ValueView)>,
> {
    Ran {
        out: match r {
            Ok(fs) => Ok(record_view(fs@)),
            Err(s) => Err(s@),
        },
        at: at@,
    }
}

/// A database call that a run came to, by its texts.
pub open spec fn gave_sql(r: Result<(String, Vec<Value>), Stop>, at: Track) -> Ran<
    (Seq<char>, Seq<ValueView>),
> {
    Ran {
        out: match r {
            Ok(x) => Ok((x.0@, list_view(x.1@))),
            Err(s) => Err(s@),
        },
        at: at@,
    }
}

/// How a run left a block, by its texts.
pub open spec fn gave_flow(r: Result<Flow, Stop>, env: Env, at: Track) -> Ran<(FlowView, Env)> {
    Ran {
        out: match r {
            Ok(f) => Ok((f@, env)),
            Err(s) => Err(s@),
        },
        at: at@,
    }
}

/// A condition that a run came to.
pub open spec fn gave_truth(r: Result<bool, Stop>, at: Track) -> Ran<bool> {
    Ran {
        out: match r {
            Ok(b) => Ok(b),
            Err(s) => Err(s@),
        },
        at: at@,
    }
}

/// An answer that a run got, by its texts.
pub open spec fn gave_reply(r: Result<&Reply, Stop>, at: Track) -> Ran<ReplyView> {
    Ran {
        out: match r {
            Ok(x) => Ok(x@),
            Err(s) => Err(s@),
        },
        at: at@,
    }
}

fn is_ident(e: &Expr, name: &str) -> (r: bool)
    ensures
        r == is_name(*e, name@),
{
    match e {
        Expr::Ident(n) => same(n, name),
        _ => false,
    }
}

fn find_field(fs: &Vec<(String, Value)>, name: &str) -> (r: Option<usize>)
    ensures
        match r {
            Some(i) => i < fs@.len() && field_index(record_view(fs@), fs@.len() as int, name@)
                == Some(i as int),
            None => field_index(record_view(fs@), fs@.len() as int, name@) is None,
        },
{
    proof {
        lemma_fields_view(fs@, fs@.len() as int);
    }
    let mut found: Option<usize> = None;
    let mut i: usize = 0;
    while i < fs.len()
        invariant
            i <= fs@.len(),
            record_view(fs@).len() == fs@.len(),
            forall|j: int|
                0 <= j < fs@.len() ==> #[trigger] record_view(fs@)[j] == (
                    fs@[j].0@,
                    value_view(fs@[j].1),
                ),
            match found {
                Some(x) => x < i && field_index(record_view(fs@), i as int, name@) == Some(
                    x as int,
                ),
                None => field_index(record_view(fs@), i as int, name@) is None,
            },
        decreases fs.len() - i,
    {
        if found.is_none() && same(&fs[i].0, name) {
            found = Some(i);
        }
        i = i + 1;
    }
    found
}

fn get_field(v: &Value, field: &str) -> (r: Plan)
    ensures
        r@ == field_of(v@, field@),
{
    match v {
        Value::Record(name, fs) => {
            proof {
                lemma_fields_view(fs@, fs@.len() as int);
            }
            match find_field(fs, field) {
                Some(i) => {
                    proof {
                        assert(record_view(fs@)[i as int] == (
                            fs@[i as int].0@,
                            value_view(fs@[i as int].1),
                        ));
                    }
                    Plan::Value(copy_value(&fs[i].1))
                },
                None => Plan::Failed(cat3("no field `", field, "`")),
            }
        },
        _ => Plan::Failed(cat3("`.", field, "` on a non-record value")),
    }
}

fn unary(op: UnOp, v: Value) -> (r: Plan)
    ensures
        r@ == unary_of(op, v@),
{
    match op {
        UnOp::Neg => match v {
            Value::Int(n) => if n == i64::MIN {
                Plan::Overflow
            } else {
                Plan::Value(Value::Int(-n))
            },
            Value::Float(f) => Plan::Value(Value::Float(negate(&f))),
            _ => Plan::Failed("invalid unary operand".to_owned()),
        },
        UnOp::Not => match v {
            Value::Bool(b) => Plan::Value(Value::Bool(!b)),
            _ => Plan::Failed("invalid unary operand".to_owned()),
        },
    }
}

fn range(s: i64, e: i64) -> (r: Value)
    ensures
        r@ == range_of(s as int, e as int),
{
    let mut out: Vec<Value> = Vec::new();
    let mut i: i64 = s;
    while i < e
        invariant
            s <= i,
            i <= e || i == s,
            list_view(out@) == ints_from(s as int, i - s),
        decreases e - i,
    {
        push_value(&mut out, Value::Int(i));
        i = i + 1;
    }
    proof {
        if e < s {
            assert(ints_from(s as int, e - s) =~= ints_from(s as int, 0));
        }
    }
    Value::List(out)
}

fn index(b: &Value, i: &Value) -> (r: Plan)
    ensures
        r@ == index_of(b@, i@),
{
    match (b, i) {
        (Value::List(items), Value::Int(n)) => Plan::Value(at_index(items, *n)),
        _ => Plan::Failed("index `[i]` needs a list and an Int".to_owned()),
    }
}

fn find_endpoint(es: &Vec<EndpointNode>, name: &str) -> (r: Option<usize>)
    ensures
        match r {
            Some(i) => i < es@.len() && endpoint_index(es@, es@.len() as int, name@) == Some(
                i as int,
            ),
            None => endpoint_index(es@, es@.len() as int, name@) is None,
        },
{
    let mut found: Option<usize> = None;
    let mut i: usize = 0;
    while i < es.len()
        invariant
            i <= es@.len(),
            match found {
                Some(x) => x < i && endpoint_index(es@, i as int, name@) == Some(x as int),
                None => endpoint_index(es@, i as int, name@) is None,
            },
        decreases es.len() - i,
    {
        if found.is_none() && same(&es[i].name, name) {
            found = Some(i);
        }
        i = i + 1;
    }
    found
}

fn endpoint_of(p: &XeresProgram, e: &Expr) -> (r: Option<usize>)
    ensures
        match r {
            Some(i) => i < p.endpoints@.len() && named_endpoint(*p, *e) == Some(i as int),
            None => named_endpoint(*p, *e) is None,
        },
{
    match e {
        Expr::Ident(n) => find_endpoint(&p.endpoints, n),
        _ => None,
    }
}

fn find_function(fs: &Vec<FunctionNode>, name: &str) -> (r: Option<usize>)
    ensures
        match r {
            Some(i) => i < fs@.len() && function_index(fs@, fs@.len() as int, name@) == Some(
                i as int,
            ),
            None => function_index(fs@, fs@.len() as int, name@) is None,
        },
{
    let mut found: Option<usize> = None;
    let mut i: usize = 0;
    while i < fs.len()
        invariant
            i <= fs@.len(),
            match found {
                Some(x) => x < i && function_index(fs@, i as int, name@) == Some(x as int),
                None => function_index(fs@, i as int, name@) is None,
            },
        decreases fs.len() - i,
    {
        if found.is_none() && same(&fs[i].name, name) {
            found = Some(i);
        }
        i = i + 1;
    }
    found
}

fn token_variable(ep: &EndpointNode) -> (r: Option<String>)
    ensures
        opt_text(r) == token_of(*ep),
{
    if ep.secrets.len() > 0 {
        Some(cat3(&uppercase(&ep.name), "_", &uppercase(&ep.secrets[0].0)))
    } else {
        None
    }
}

fn log_text(level: &str, v: &Value) -> (r: String)
    ensures
        r@ == log_line(level@, v@),
{
    let msg = match v {
        Value::Str(s) => json_str(s),
        _ => json_str(&trace(v)),
    };
    cat5("{\"level\":\"", level, "\",\"msg\":", &msg, "}")
}

fn scalar(v: &Value) -> (r: bool)
    ensures
        r == is_scalar(v@),
{
    match v {
        Value::Str(_) => true,
        Value::Int(_) => true,
        Value::Float(_) => true,
        Value::Bool(_) => true,
        _ => false,
    }
}

fn want(ty: &str) -> (r: Want)
    ensures
        r == wanted(ty@),
{
    if same(ty, "Int") || same(ty, "DateTime") {
        Want::Int
    } else if same(ty, "Float") {
        Want::Float
    } else if same(ty, "Bool") {
        Want::Bool
    } else {
        Want::Text
    }
}

proof fn lemma_columns_prefix(a: Seq<(String, Want)>, b: Seq<(String, Want)>, n: int)
    requires
        0 <= n <= a.len(),
        n <= b.len(),
        forall|i: int| 0 <= i < n ==> a[i] == b[i],
    ensures
        columns_view(a, n) == columns_view(b, n),
    decreases n,
{
    if n > 0 {
        lemma_columns_prefix(a, b, n - 1);
    }
}

fn columns(props: &Vec<PropertyNode>) -> (r: Vec<(String, Want)>)
    ensures
        columns_view(r@, r@.len() as int) == model_columns(props@, props@.len() as int),
{
    let mut out: Vec<(String, Want)> = Vec::new();
    let mut i: usize = 0;
    while i < props.len()
        invariant
            i <= props@.len(),
            columns_view(out@, out@.len() as int) == model_columns(props@, i as int),
        decreases props.len() - i,
    {
        let ghost before = out@;
        out.push((props[i].name.clone(), want(&props[i].data_type)));
        proof {
            lemma_columns_prefix(before, out@, before.len() as int);
        }
        i = i + 1;
    }
    out
}

fn model_place(p: &XeresProgram, name: &str) -> (r: Option<usize>)
    ensures
        match r {
            Some(i) => i < p.models@.len() && model_index(p.models@, name@) == Some(i as int),
            None => model_index(p.models@, name@) is None,
        },
{
    proof {
        crate::ast::lemma_model_index(p.models@, name@);
    }
    let mut i: usize = 0;
    while i < p.models.len()
        invariant
            i <= p.models@.len(),
            forall|j: int| 0 <= j < i ==> p.models@[j].name@ != name@,
        decreases p.models.len() - i,
    {
        if same(&p.models[i].name, name) {
            proof {
                crate::ast::lemma_model_index(p.models@, name@);
            }
            return Some(i);
        }
        i = i + 1;
    }
    proof {
        crate::ast::lemma_model_index(p.models@, name@);
    }
    None
}

fn model_for(p: &XeresProgram, method: &str, ty: &Option<String>) -> (r: Option<usize>)
    ensures
        match r {
            Some(i) => i < p.models@.len() && query_model(*p, method@, opt_text(*ty)) == Some(
                i as int,
            ),
            None => query_model(*p, method@, opt_text(*ty)) is None,
        },
{
    match ty {
        None => None,
        Some(t) => if same(method, "query") {
            match generic_inner("List", t) {
                Some(inner) => model_place(p, inner),
                None => None,
            }
        } else {
            match generic_inner("Optional", t) {
                Some(inner) => model_place(p, inner),
                None => model_place(p, t),
            }
        },
    }
}

fn record_of(p: &XeresProgram, m: usize, row: &Vec<Value>) -> (r: Value)
    requires
        m < p.models@.len(),
    ensures
        r@ == row_record(*p, m as int, list_view(row@)),
{
    let props = &p.models[m].properties;
    let mut out: Vec<(String, Value)> = Vec::new();
    let mut i: usize = 0;
    while i < props.len()
        invariant
            i <= props@.len(),
            record_view(out@) == row_fields(props@, list_view(row@), i as int),
        decreases props.len() - i,
    {
        let v = if i < row.len() {
            copy_value(&row[i])
        } else {
            Value::Null
        };
        proof {
            lemma_values_view(row@, row@.len() as int);
            if i < row@.len() {
                assert(list_view(row@)[i as int] == value_view(row@[i as int]));
            }
        }
        push_field(&mut out, props[i].name.clone(), v);
        i = i + 1;
    }
    Value::Record(p.models[m].name.clone(), out)
}

fn records_of(p: &XeresProgram, m: usize, rows: &Vec<Vec<Value>>) -> (r: Vec<Value>)
    requires
        m < p.models@.len(),
    ensures
        list_view(r@) == row_records(
            *p,
            m as int,
            rows_view(rows@, rows@.len() as int),
            rows@.len() as int,
        ),
{
    let ghost vs = rows_view(rows@, rows@.len() as int);
    proof {
        lemma_rows_view(rows@, rows@.len() as int);
    }
    let mut out: Vec<Value> = Vec::new();
    let mut i: usize = 0;
    while i < rows.len()
        invariant
            i <= rows@.len(),
            m < p.models@.len(),
            vs.len() == rows@.len(),
            forall|j: int| 0 <= j < rows@.len() ==> #[trigger] vs[j] == list_view(rows@[j]@),
            list_view(out@) == row_records(*p, m as int, vs, i as int),
        decreases rows.len() - i,
    {
        let x = record_of(p, m, &rows[i]);
        push_value(&mut out, x);
        i = i + 1;
    }
    out
}

/// What the rows of a query come to: a list of records, or the first record. An optional type lets a
/// query for one row come back without one.
pub fn query_result(
    p: &XeresProgram,
    method: &str,
    ty: &Option<String>,
    rows: &Vec<Vec<Value>>,
) -> (r: Plan)
    ensures
        r@ == rows_result(*p, method@, opt_text(*ty), rows_view(rows@, rows@.len() as int)),
{
    proof {
        lemma_rows_view(rows@, rows@.len() as int);
    }
    match model_for(p, method, ty) {
        None => Plan::Failed("db query: unknown return model".to_owned()),
        Some(m) => if same(method, "query_one") {
            if rows.len() > 0 {
                proof {
                    assert(rows_view(rows@, rows@.len() as int)[0] == list_view(rows@[0]@));
                }
                Plan::Value(record_of(p, m, &rows[0]))
            } else {
                let optional: bool = match ty {
                    Some(t) => generic_inner("Optional", t).is_some(),
                    None => false,
                };
                if optional {
                    Plan::Value(Value::Null)
                } else {
                    Plan::Failed("query_one: no rows".to_owned())
                }
            }
        } else {
            Plan::Value(Value::List(records_of(p, m, rows)))
        },
    }
}

/// The declared type that an endpoint's response is decoded into.
pub fn endpoint_typed_target<'t>(p: &XeresProgram, ty: &'t Option<String>) -> (r: Option<&'t String>)
    ensures
        match r {
            Some(t) => typed_target(*p, opt_text(*ty)) == Some(t@),
            None => typed_target(*p, opt_text(*ty)) is None,
        },
{
    match ty {
        None => None,
        Some(t) => {
            let found: Option<usize> = match generic_inner("List", t) {
                Some(inner) => model_place(p, inner),
                None => match generic_inner("Optional", t) {
                    Some(inner) => model_place(p, inner),
                    None => model_place(p, t),
                },
            };
            match found {
                Some(_) => Some(t),
                None => None,
            }
        },
    }
}

fn numbers_for(ts: &Parts, ns: &Vec<Number>) -> (r: StrMap<Number>)
    ensures
        r@ == number_map(
            ts@,
            numbers_view(ns@, ns@.len() as int),
            shorter(ts@.len(), ns@.len()),
        ),
{
    let ghost vs = numbers_view(ns@, ns@.len() as int);
    proof {
        lemma_numbers_view(ns@, ns@.len() as int);
    }
    let mut out: StrMap<Number> = StrMap::new();
    let mut i: usize = 0;
    while i < ts.len() && i < ns.len()
        invariant
            i <= ts@.len(),
            i <= ns@.len(),
            vs.len() == ns@.len(),
            forall|j: int| 0 <= j < ns@.len() ==> #[trigger] vs[j] == ns@[j]@,
            out@ == number_map(ts@, vs, i as int),
        decreases ns.len() - i,
    {
        let n = copy_number(&ns[i]);
        out.insert(ts.get(i).clone(), n);
        i = i + 1;
    }
    out
}

fn bind_params(ps: &Vec<Param>, vs: &Vec<Value>) -> (r: StrMap<Value>)
    ensures
        r@ == bound_params(ps@, list_view(vs@), shorter(ps@.len(), vs@.len())),
{
    proof {
        lemma_values_view(vs@, vs@.len() as int);
    }
    let mut out: StrMap<Value> = StrMap::new();
    let mut i: usize = 0;
    while i < ps.len() && i < vs.len()
        invariant
            i <= ps@.len(),
            i <= vs@.len(),
            list_view(vs@).len() == vs@.len(),
            forall|j: int|
                0 <= j < vs@.len() ==> #[trigger] list_view(vs@)[j] == value_view(vs@[j]),
            out@ == bound_params(ps@, list_view(vs@), i as int),
        decreases vs.len() - i,
    {
        let v = copy_value(&vs[i]);
        out.insert(ps[i].name.clone(), v);
        i = i + 1;
    }
    out
}

fn copy_env(env: &StrMap<Value>) -> (r: StrMap<Value>)
    ensures
        r@ == env@,
{
    let mut out: StrMap<Value> = StrMap::new();
    let mut i: usize = 0;
    while i < env.entries.len()
        invariant
            i <= env.entries@.len(),
            out@ == map_of(env.entries@, i as int),
        decreases env.entries.len() - i,
    {
        let v = copy_value(&env.entries[i].1);
        out.insert(env.entries[i].0.clone(), v);
        i = i + 1;
    }
    out
}

fn bind_names(env: &StrMap<Value>, names: &Vec<String>, vs: &Vec<Value>) -> (r: StrMap<Value>)
    ensures
        r@ == closure_env(env@, names@, list_view(vs@)),
{
    proof {
        lemma_values_view(vs@, vs@.len() as int);
    }
    let mut out: StrMap<Value> = copy_env(env);
    let mut i: usize = 0;
    while i < names.len() && i < vs.len()
        invariant
            i <= names@.len(),
            i <= vs@.len(),
            list_view(vs@).len() == vs@.len(),
            forall|j: int|
                0 <= j < vs@.len() ==> #[trigger] list_view(vs@)[j] == value_view(vs@[j]),
            out@ == bound_names(env@, names@, list_view(vs@), i as int),
        decreases vs.len() - i,
    {
        let v = copy_value(&vs[i]);
        out.insert(names[i].clone(), v);
        i = i + 1;
    }
    out
}

fn find_arm(arms: &Vec<MatchArm>, v: &str) -> (r: Option<usize>)
    ensures
        match r {
            Some(i) => i < arms@.len() && chosen_arm(arms@, v@) == Some(i as int),
            None => chosen_arm(arms@, v@) is None,
        },
{
    let mut exact: Option<usize> = None;
    let mut any: Option<usize> = None;
    let mut i: usize = 0;
    while i < arms.len()
        invariant
            i <= arms@.len(),
            match exact {
                Some(x) => x < i && variant_arm(arms@, i as int, v@) == Some(x as int),
                None => variant_arm(arms@, i as int, v@) is None,
            },
            match any {
                Some(x) => x < i && wildcard_arm(arms@, i as int) == Some(x as int),
                None => wildcard_arm(arms@, i as int) is None,
            },
        decreases arms.len() - i,
    {
        match &arms[i].pattern {
            MatchPat::Variant(n) => {
                if exact.is_none() && same(n, v) {
                    exact = Some(i);
                }
            },
            MatchPat::Wildcard => {
                if any.is_none() {
                    any = Some(i);
                }
            },
        }
        i = i + 1;
    }
    match exact {
        Some(x) => Some(x),
        None => any,
    }
}

/// A result of a run, by its texts.
pub open spec fn outcome(r: Result<Value, Stop>) -> Result<ValueView, StopView> {
    match r {
        Ok(v) => Ok(v@),
        Err(s) => Err(s@),
    }
}

/// The start of a run.
pub open spec fn begun(cookie: Option<Seq<char>>) -> TrackView {
    TrackView { pos: 0, cookie }
}

/// Whether a run stopped for an answer of the host.
pub open spec fn waits(run: Ran<ValueView>) -> bool {
    match run.out {
        Err(StopView::Need(_)) => true,
        _ => false,
    }
}

/// What the next run can read: the answers are used up, unless the run waits for one more.
pub open spec fn left_world(w: World, run: Ran<ValueView>) -> World {
    if waits(run) {
        w
    } else {
        World { replies: Seq::empty(), ..w }
    }
}

/// The cookie after a run: the one that it set, unless it waits for an answer.
pub open spec fn left_cookie(cookie: Option<Seq<char>>, run: Ran<ValueView>) -> Option<Seq<char>> {
    if waits(run) {
        cookie
    } else {
        run.at.cookie
    }
}

/// The interpreter of a program, for one signed-in actor or none.
pub struct Interp<'a> {
    pub program: &'a XeresProgram,
    session_actor: Option<String>,
    secret: Vec<u8>,
    replies: Vec<Reply>,
    set_cookie: Option<String>,
}

impl<'a> Interp<'a> {
    /// What its runs can read.
    pub closed spec fn world(&self) -> World {
        World {
            program: *self.program,
            actor: opt_text(self.session_actor),
            key: self.secret@,
            replies: replies_view(self.replies@, self.replies@.len() as int),
        }
    }

    /// The cookie that is to be set.
    pub closed spec fn cookie(&self) -> Option<Seq<char>> {
        opt_text(self.set_cookie)
    }

    /// The interpreter of a program for the actor of a verified session, or for none. Sessions are
    /// signed with the key of development until another is set.
    pub fn with_session(program: &'a XeresProgram, session_actor: Option<String>) -> (r: Self)
        ensures
            r.world() == (World {
                program: *program,
                actor: opt_text(session_actor),
                key: secret_bytes(None),
                replies: Seq::empty(),
            }),
            r.cookie() is None,
    {
        let r = Interp {
            program,
            session_actor,
            secret: session_secret(&None),
            replies: Vec::new(),
            set_cookie: None,
        };
        proof {
            assert(replies_view(r.replies@, 0) =~= Seq::<ReplyView>::empty());
        }
        r
    }

    /// Sets the key that sessions are signed with.
    pub fn set_secret(&mut self, key: Vec<u8>)
        ensures
            final(self).world() == (World { key: key@, ..old(self).world() }),
            final(self).cookie() == old(self).cookie(),
    {
        self.secret = key;
    }

    /// Hands over the host's answer to the question that the last run stopped with.
    pub fn answer(&mut self, reply: Reply)
        ensures
            final(self).world() == (World {
                replies: old(self).world().replies.push(reply@),
                ..old(self).world()
            }),
            final(self).cookie() == old(self).cookie(),
    {
        let ghost before = self.replies@;
        self.replies.push(reply);
        proof {
            lemma_replies_prefix(before, self.replies@, before.len() as int);
        }
    }

    /// The `Set-Cookie` text that a call of the session's methods has left. It is taken, and gone.
    pub fn take_set_cookie(&mut self) -> (r: Option<String>)
        ensures
            opt_text(r) == old(self).cookie(),
            final(self).cookie() is None,
            final(self).world() == old(self).world(),
    {
        let mut taken: Option<String> = None;
        std::mem::swap(&mut taken, &mut self.set_cookie);
        taken
    }

    /// A value as it goes over the wire: the secret fields of models are left out.
    pub fn wire_json(&self, v: &Value) -> (r: String)
        ensures
            r@ == wire_text(v@, self.world().program),
    {
        wire_json(v, self.program)
    }

    /// The value of an expression, as [`Interp::call`] runs a function.
    pub fn eval(&mut self, e: &Expr, env: &StrMap<Value>) -> (r: Result<Value, Stop>)
        ensures
            ({
                let run = eval_at(
                    old(self).world(),
                    *e,
                    env@,
                    begun(old(self).cookie()),
                    u64::MAX as nat,
                );
                &&& outcome(r) == run.out
                &&& final(self).world() == left_world(old(self).world(), run)
                &&& final(self).cookie() == left_cookie(old(self).cookie(), run)
            }),
    {
        let mut at = Track { pos: 0, cookie: self.set_cookie.clone() };
        let r = self.eval_in(e, env, &mut at, u64::MAX);
        self.finish(&r, at);
        r
    }

    /// Calls a function by its name. A run that stops for an answer of the host leaves everything as it
    /// was: it is called again, the same way, when the answer is there. Any other run uses the answers
    /// up and keeps the cookie that it set.
    pub fn call(&mut self, fn_name: &str, args: Vec<Value>) -> (r: Result<Value, Stop>)
        ensures
            ({
                let run = call_at(
                    old(self).world(),
                    fn_name@,
                    list_view(args@),
                    begun(old(self).cookie()),
                    u64::MAX as nat,
                );
                &&& outcome(r) == run.out
                &&& final(self).world() == left_world(old(self).world(), run)
                &&& final(self).cookie() == left_cookie(old(self).cookie(), run)
            }),
    {
        let mut at = Track { pos: 0, cookie: self.set_cookie.clone() };
        let r = self.call_with(fn_name, &args, &mut at, u64::MAX);
        self.finish(&r, at);
        r
    }

    /// Runs the body of an `api` route with its decoded request body bound, as [`Interp::call`] runs a
    /// function.
    pub fn call_api_route(
        &mut self,
        body_stmts: &Vec<Stmt>,
        body_param: Option<(String, Value)>,
        return_type: &Option<String>,
    ) -> (r: Result<Value, Stop>)
        ensures
            ({
                let run = returned(
                    block_at(
                        old(self).world(),
                        body_stmts@,
                        0,
                        match body_param {
                            Some(b) => Map::empty().insert(b.0@, b.1@),
                            None => Map::empty(),
                        },
                        opt_text(*return_type),
                        begun(old(self).cookie()),
                        u64::MAX as nat,
                    ),
                );
                &&& outcome(r) == run.out
                &&& final(self).world() == left_world(old(self).world(), run)
                &&& final(self).cookie() == left_cookie(old(self).cookie(), run)
            }),
    {
        let mut at = Track { pos: 0, cookie: self.set_cookie.clone() };
        let mut env: StrMap<Value> = StrMap::new();
        if let Some((name, val)) = body_param {
            env.insert(name, val);
        }
        let r = match self.exec_block(body_stmts, &mut env, return_type, &mut at, u64::MAX) {
            Err(s) => Err(s),
            Ok(Flow::Return(v)) => Ok(v),
            Ok(_) => Ok(Value::Null),
        };
        self.finish(&r, at);
        r
    }

    fn finish(&mut self, r: &Result<Value, Stop>, at: Track)
        ensures
            final(self).world() == left_world(old(self).world(), gave(*r, at)),
            final(self).cookie() == left_cookie(old(self).cookie(), gave(*r, at)),
    {
        if let Err(Stop::Need(_)) = r {
        } else {
            self.replies = Vec::new();
            self.set_cookie = at.cookie;
            proof {
                assert(replies_view(self.replies@, 0) =~= Seq::<ReplyView>::empty());
            }
        }
    }

    fn ask(&self, e: Effect, at: &mut Track) -> (r: Result<&Reply, Stop>)
        ensures
            gave_reply(r, *final(at)) == asked(self.world(), e@, old(at)@),
    {
        proof {
            lemma_replies_view(self.replies@, self.replies@.len() as int);
        }
        if at.pos < self.replies.len() {
            let i: usize = at.pos;
            at.pos = i + 1;
            Ok(&self.replies[i])
        } else {
            Err(Stop::Need(e))
        }
    }

    fn settle(&self, p: Plan, at: &mut Track) -> (r: Result<Value, Stop>)
        ensures
            gave(r, *final(at)) == settled(self.world(), p@, old(at)@),
    {
        match p {
            Plan::Value(v) => Ok(v),
            Plan::Failed(m) => Err(Stop::Failed(m)),
            Plan::Overflow => Err(Stop::Overflow),
            Plan::Ask(e) => match self.ask(e, at) {
                Err(s) => Err(s),
                Ok(x) => match x {
                    Reply::Number(n) => Ok(Value::Float(copy_number(n))),
                    Reply::Int(n) => Ok(Value::Int(*n)),
                    Reply::Truth(b) => Ok(Value::Bool(*b)),
                    Reply::Nanos(n) => Ok(Value::Str(uid(*n))),
                    Reply::Text(s) => Ok(Value::Str(s.clone())),
                    Reply::Done => Ok(Value::Null),
                    Reply::Failed(m) => Err(Stop::Failed(m.clone())),
                    _ => Err(Stop::Mismatch),
                },
            },
        }
    }

    fn literal(&self, t: &str, at: &mut Track) -> (r: Result<Value, Stop>)
        ensures
            gave(r, *final(at)) == literal_at(self.world(), t@, old(at)@),
    {
        let mut ts = Parts::new();
        ts.push(t.to_owned());
        proof {
            assert(ts@ =~= seq![t@]);
        }
        match self.ask(Effect::Numbers(ts), at) {
            Err(s) => Err(s),
            Ok(x) => match x {
                Reply::Numbers(ns) => {
                    proof {
                        lemma_numbers_view(ns@, ns@.len() as int);
                    }
                    if ns.len() > 0 {
                        proof {
                            assert(numbers_view(ns@, ns@.len() as int)[0] == ns@[0]@);
                        }
                        Ok(Value::Float(copy_number(&ns[0])))
                    } else {
                        Err(Stop::Mismatch)
                    }
                },
                Reply::Failed(m) => Err(Stop::Failed(m.clone())),
                _ => Err(Stop::Mismatch),
            },
        }
    }

    fn eval_in(&self, e: &Expr, env: &StrMap<Value>, at: &mut Track, fuel: u64) -> (r: Result<
        Value,
        Stop,
    >)
        ensures
            gave(r, *final(at)) == eval_at(self.world(), *e, env@, old(at)@, fuel as nat),
        decreases fuel, 0int, e, 2int, 0int,
    {
        match e {
            Expr::Int(n) => Ok(Value::Int(*n)),
            Expr::Float(t) => self.literal(t, at),
            Expr::Str(s) => Ok(Value::Str(s.clone())),
            Expr::Bool(b) => Ok(Value::Bool(*b)),
            Expr::NoneLit => Ok(Value::Null),
            Expr::Ident(v) => match env.get(v) {
                Some(x) => Ok(copy_value(x)),
                None => Err(Stop::Failed(cat3("unknown variable `", v, "`"))),
            },
            Expr::Field { base, field } => {
                if is_ident(base, "session") && same(field, "actor") {
                    return Ok(
                        match &self.session_actor {
                            Some(id) => Value::Str(id.clone()),
                            None => Value::Null,
                        },
                    );
                }
                if let Expr::Ident(name) = &**base {
                    if starts_upper(name) {
                        return Ok(Value::Str(field.clone()));
                    }
                }
                match self.eval_in(base, env, at, fuel) {
                    Err(s) => Err(s),
                    Ok(v) => self.settle(get_field(&v, field), at),
                }
            },
            Expr::Unary { op, expr } => match self.eval_in(expr, env, at, fuel) {
                Err(s) => Err(s),
                Ok(v) => self.settle(unary(*op, v), at),
            },
            Expr::Binary { op, left, right } => {
                let l = match self.eval_in(left, env, at, fuel) {
                    Err(s) => {
                        return Err(s);
                    },
                    Ok(v) => v,
                };
                match self.eval_in(right, env, at, fuel) {
                    Err(s) => Err(s),
                    Ok(v) => self.settle(binary(*op, l, v), at),
                }
            },
            Expr::Call { callee, args } => {
                let vs = match self.eval_all(args, env, at, fuel) {
                    Err(s) => {
                        return Err(s);
                    },
                    Ok(vs) => vs,
                };
                if fuel == 0 {
                    return Err(Stop::Spent);
                }
                self.call_with(callee, &vs, at, fuel - 1)
            },
            Expr::Declassify(inner) => self.eval_in(inner, env, at, fuel),
            Expr::Raw(inner) => self.eval_in(inner, env, at, fuel),
            Expr::Await(inner) => self.eval_in(inner, env, at, fuel),
            Expr::Record { name, fields } => match self.eval_fields(fields, env, at, fuel) {
                Err(s) => Err(s),
                Ok(fs) => Ok(Value::Record(name.clone(), fs)),
            },
            Expr::ListLit(items) => match self.eval_all(items, env, at, fuel) {
                Err(s) => Err(s),
                Ok(vs) => Ok(Value::List(vs)),
            },
            Expr::Ternary { cond, yes, otherwise } => match self.eval_in(cond, env, at, fuel) {
                Err(s) => Err(s),
                Ok(Value::Bool(b)) => if b {
                    self.eval_in(yes, env, at, fuel)
                } else {
                    self.eval_in(otherwise, env, at, fuel)
                },
                Ok(_) => Err(Stop::Failed("ternary condition must be a boolean".to_owned())),
            },
            Expr::Range { start, end } => {
                let a: i64 = match self.eval_in(start, env, at, fuel) {
                    Err(s) => {
                        return Err(s);
                    },
                    Ok(Value::Int(n)) => n,
                    Ok(_) => {
                        return Err(Stop::Failed("range bounds must be Int".to_owned()));
                    },
                };
                match self.eval_in(end, env, at, fuel) {
                    Err(s) => Err(s),
                    Ok(Value::Int(n)) => Ok(range(a, n)),
                    Ok(_) => Err(Stop::Failed("range bounds must be Int".to_owned())),
                }
            },
            Expr::Index { base, index: place } => {
                let b = match self.eval_in(base, env, at, fuel) {
                    Err(s) => {
                        return Err(s);
                    },
                    Ok(v) => v,
                };
                match self.eval_in(place, env, at, fuel) {
                    Err(s) => Err(s),
                    Ok(i) => self.settle(index(&b, &i), at),
                }
            },
            Expr::Closure { params, body } => Err(
                Stop::Failed("a closure may only be passed to map/filter/reduce".to_owned()),
            ),
            Expr::MethodCall { receiver, method, args } => self.method_call(e, env, at, fuel),
        }
    }

    fn eval_all(&self, es: &Vec<Expr>, env: &StrMap<Value>, at: &mut Track, fuel: u64) -> (r: Result<
        Vec<Value>,
        Stop,
    >)
        ensures
            gave_list(r, *final(at)) == evals_at(
                self.world(),
                es@,
                0,
                env@,
                old(at)@,
                fuel as nat,
                Seq::empty(),
            ),
        decreases fuel, 0int, es, 0int, 0int,
    {
        let ghost w = self.world();
        let mut out: Vec<Value> = Vec::new();
        let mut i: usize = 0;
        proof {
            assert(list_view(out@) =~= Seq::<ValueView>::empty());
        }
        while i < es.len()
            invariant
                i <= es@.len(),
                w == self.world(),
                evals_at(w, es@, 0, env@, old(at)@, fuel as nat, Seq::empty()) == evals_at(
                    w,
                    es@,
                    i as int,
                    env@,
                    at@,
                    fuel as nat,
                    list_view(out@),
                ),
            decreases es.len() - i,
        {
            match self.eval_in(&es[i], env, at, fuel) {
                Err(s) => {
                    return Err(s);
                },
                Ok(v) => {
                    push_value(&mut out, v);
                },
            }
            i = i + 1;
        }
        Ok(out)
    }

    fn eval_fields(
        &self,
        fs: &Vec<(String, Expr)>,
        env: &StrMap<Value>,
        at: &mut Track,
        fuel: u64,
    ) -> (r: Result<Vec<(String, Value)>, Stop>)
        ensures
            gave_fields(r, *final(at)) == fields_at(
                self.world(),
                fs@,
                0,
                env@,
                old(at)@,
                fuel as nat,
                Seq::empty(),
            ),
        decreases fuel, 0int, fs, 0int, 0int,
    {
        let ghost w = self.world();
        let mut out: Vec<(String, Value)> = Vec::new();
        let mut i: usize = 0;
        proof {
            assert(record_view(out@) =~= Seq::<(Seq<char>, ValueView)>::empty());
        }
        while i < fs.len()
            invariant
                i <= fs@.len(),
                w == self.world(),
                fields_at(w, fs@, 0, env@, old(at)@, fuel as nat, Seq::empty()) == fields_at(
                    w,
                    fs@,
                    i as int,
                    env@,
                    at@,
                    fuel as nat,
                    record_view(out@),
                ),
            decreases fs.len() - i,
        {
            match self.eval_in(&fs[i].1, env, at, fuel) {
                Err(s) => {
                    return Err(s);
                },
                Ok(v) => {
                    push_field(&mut out, fs[i].0.clone(), v);
                },
            }
            i = i + 1;
        }
        Ok(out)
    }

    fn method_call(&self, e: &Expr, env: &StrMap<Value>, at: &mut Track, fuel: u64) -> (r: Result<
        Value,
        Stop,
    >)
        ensures
            gave(r, *final(at)) == method_at(self.world(), *e, env@, old(at)@, fuel as nat),
        decreases fuel, 0int, e, 1int, 0int,
    {
        match e {
            Expr::MethodCall { receiver, method, args } => {
                if is_ident(receiver, "session") {
                    return self.session_method(method, args, env, at, fuel);
                }
                if is_ident(receiver, "log") {
                    return self.log_method(method, args, env, at, fuel);
                }
                if let Some(i) = endpoint_of(self.program, receiver) {
                    return self.endpoint_method(
                        &self.program.endpoints[i],
                        method,
                        args,
                        env,
                        at,
                        fuel,
                    );
                }
                if is_ident(receiver, "db") && same(method, "exec") {
                    return self.db_exec(args, env, at, fuel);
                }
                match self.eval_in(receiver, env, at, fuel) {
                    Err(s) => Err(s),
                    Ok(recv) => self.value_method(recv, method, args, env, at, fuel),
                }
            },
            _ => Ok(Value::Null),
        }
    }

    fn value_method(
        &self,
        recv: Value,
        method: &str,
        args: &Vec<Expr>,
        env: &StrMap<Value>,
        at: &mut Track,
        fuel: u64,
    ) -> (r: Result<Value, Stop>)
        ensures
            gave(r, *final(at)) == value_method_at(
                self.world(),
                recv@,
                method@,
                args@,
                env@,
                old(at)@,
                fuel as nat,
            ),
        decreases fuel, 0int, args, 1int, 0int,
    {
        if same(method, "or") {
            return match recv {
                Value::Null => if args.len() == 0 {
                    Err(Stop::Failed("`or` needs a default".to_owned()))
                } else {
                    self.eval_in(&args[0], env, at, fuel)
                },
                other => Ok(other),
            };
        }
        match &recv {
            Value::Str(s) => match self.eval_all(args, env, at, fuel) {
                Err(x) => Err(x),
                Ok(vs) => self.settle(string_method(s, method, &vs), at),
            },
            Value::List(items) => {
                if same(method, "map") {
                    return self.map_items(items, args, env, at, fuel);
                }
                if same(method, "filter") {
                    return self.filter_items(items, args, env, at, fuel);
                }
                if same(method, "reduce") {
                    return self.reduce_items(items, args, env, at, fuel);
                }
                match self.eval_all(args, env, at, fuel) {
                    Err(x) => Err(x),
                    Ok(vs) => self.settle(list_method(items, method, &vs), at),
                }
            },
            _ => Err(Stop::Failed("unsupported method call in server runtime".to_owned())),
        }
    }

    fn eval_closure(
        &self,
        params: &Vec<String>,
        body: &Expr,
        vals: &Vec<Value>,
        env: &StrMap<Value>,
        at: &mut Track,
        fuel: u64,
    ) -> (r: Result<Value, Stop>)
        ensures
            gave(r, *final(at)) == eval_at(
                self.world(),
                *body,
                closure_env(env@, params@, list_view(vals@)),
                old(at)@,
                fuel as nat,
            ),
        decreases fuel, 0int, body, 3int, 0int,
    {
        let child = bind_names(env, params, vals);
        self.eval_in(body, &child, at, fuel)
    }

    fn map_items(
        &self,
        items: &Vec<Value>,
        args: &Vec<Expr>,
        env: &StrMap<Value>,
        at: &mut Track,
        fuel: u64,
    ) -> (r: Result<Value, Stop>)
        ensures
            gave(r, *final(at)) == map_call(
                self.world(),
                list_view(items@),
                args@,
                env@,
                old(at)@,
                fuel as nat,
            ),
        decreases fuel, 0int, args, 0int, 0int,
    {
        if args.len() > 0 {
            if let Expr::Closure { params, body } = &args[0] {
                return self.map_over(items, params, body, env, at, fuel);
            }
        }
        Err(Stop::Failed("expected a closure argument (`x -> …`)".to_owned()))
    }

    fn map_over(
        &self,
        items: &Vec<Value>,
        params: &Vec<String>,
        body: &Expr,
        env: &StrMap<Value>,
        at: &mut Track,
        fuel: u64,
    ) -> (r: Result<Value, Stop>)
        ensures
            gave(r, *final(at)) == map_at(
                self.world(),
                list_view(items@),
                0,
                params@,
                *body,
                env@,
                old(at)@,
                fuel as nat,
                Seq::empty(),
            ),
        decreases fuel, 0int, body, 4int, 0int,
    {
        let ghost w = self.world();
        let ghost vs = list_view(items@);
        let mut out: Vec<Value> = Vec::new();
        let mut i: usize = 0;
        proof {
            lemma_values_view(items@, items@.len() as int);
            assert(list_view(out@) =~= Seq::<ValueView>::empty());
        }
        while i < items.len()
            invariant
                i <= items@.len(),
                w == self.world(),
                vs == list_view(items@),
                vs.len() == items@.len(),
                forall|j: int| 0 <= j < items@.len() ==> #[trigger] vs[j] == value_view(items@[j]),
                map_at(w, vs, 0, params@, *body, env@, old(at)@, fuel as nat, Seq::empty())
                    == map_at(
                    w,
                    vs,
                    i as int,
                    params@,
                    *body,
                    env@,
                    at@,
                    fuel as nat,
                    list_view(out@),
                ),
            decreases items.len() - i,
        {
            let mut vals: Vec<Value> = Vec::new();
            push_value(&mut vals, copy_value(&items[i]));
            proof {
                assert(list_view(vals@) =~= seq![vs[i as int]]);
            }
            match self.eval_closure(params, body, &vals, env, at, fuel) {
                Err(s) => {
                    return Err(s);
                },
                Ok(v) => {
                    push_value(&mut out, v);
                },
            }
            i = i + 1;
        }
        Ok(Value::List(out))
    }

    fn filter_items(
        &self,
        items: &Vec<Value>,
        args: &Vec<Expr>,
        env: &StrMap<Value>,
        at: &mut Track,
        fuel: u64,
    ) -> (r: Result<Value, Stop>)
        ensures
            gave(r, *final(at)) == filter_call(
                self.world(),
                list_view(items@),
                args@,
                env@,
                old(at)@,
                fuel as nat,
            ),
        decreases fuel, 0int, args, 0int, 0int,
    {
        if args.len() > 0 {
            if let Expr::Closure { params, body } = &args[0] {
                return self.filter_over(items, params, body, env, at, fuel);
            }
        }
        Err(Stop::Failed("expected a closure argument (`x -> …`)".to_owned()))
    }

    fn filter_over(
        &self,
        items: &Vec<Value>,
        params: &Vec<String>,
        body: &Expr,
        env: &StrMap<Value>,
        at: &mut Track,
        fuel: u64,
    ) -> (r: Result<Value, Stop>)
        ensures
            gave(r, *final(at)) == filter_at(
                self.world(),
                list_view(items@),
                0,
                params@,
                *body,
                env@,
                old(at)@,
                fuel as nat,
                Seq::empty(),
            ),
        decreases fuel, 0int, body, 4int, 0int,
    {
        let ghost w = self.world();
        let ghost vs = list_view(items@);
        let mut out: Vec<Value> = Vec::new();
        let mut i: usize = 0;
        proof {
            lemma_values_view(items@, items@.len() as int);
            assert(list_view(out@) =~= Seq::<ValueView>::empty());
        }
        while i < items.len()
            invariant
                i <= items@.len(),
                w == self.world(),
                vs == list_view(items@),
                vs.len() == items@.len(),
                forall|j: int| 0 <= j < items@.len() ==> #[trigger] vs[j] == value_view(items@[j]),
                filter_at(w, vs, 0, params@, *body, env@, old(at)@, fuel as nat, Seq::empty())
                    == filter_at(
                    w,
                    vs,
                    i as int,
                    params@,
                    *body,
                    env@,
                    at@,
                    fuel as nat,
                    list_view(out@),
                ),
            decreases items.len() - i,
        {
            let mut vals: Vec<Value> = Vec::new();
            push_value(&mut vals, copy_value(&items[i]));
            proof {
                assert(list_view(vals@) =~= seq![vs[i as int]]);
            }
            match self.eval_closure(params, body, &vals, env, at, fuel) {
                Err(s) => {
                    return Err(s);
                },
                Ok(Value::Bool(b)) => {
                    if b {
                        push_value(&mut out, copy_value(&items[i]));
                    }
                },
                Ok(_) => {
                    return Err(Stop::Failed("`filter` predicate must return a Bool".to_owned()));
                },
            }
            i = i + 1;
        }
        Ok(Value::List(out))
    }

    fn reduce_items(
        &self,
        items: &Vec<Value>,
        args: &Vec<Expr>,
        env: &StrMap<Value>,
        at: &mut Track,
        fuel: u64,
    ) -> (r: Result<Value, Stop>)
        ensures
            gave(r, *final(at)) == reduce_call(
                self.world(),
                list_view(items@),
                args@,
                env@,
                old(at)@,
                fuel as nat,
            ),
        decreases fuel, 0int, args, 0int, 0int,
    {
        if args.len() == 0 {
            return Err(Stop::Failed("`reduce` needs an init value".to_owned()));
        }
        let init = match self.eval_in(&args[0], env, at, fuel) {
            Err(s) => {
                return Err(s);
            },
            Ok(v) => v,
        };
        if args.len() > 1 {
            if let Expr::Closure { params, body } = &args[1] {
                return self.reduce_over(items, init, params, body, env, at, fuel);
            }
        }
        Err(Stop::Failed("expected a closure argument (`x -> …`)".to_owned()))
    }

    fn reduce_over(
        &self,
        items: &Vec<Value>,
        init: Value,
        params: &Vec<String>,
        body: &Expr,
        env: &StrMap<Value>,
        at: &mut Track,
        fuel: u64,
    ) -> (r: Result<Value, Stop>)
        ensures
            gave(r, *final(at)) == reduce_at(
                self.world(),
                list_view(items@),
                0,
                params@,
                *body,
                env@,
                old(at)@,
                fuel as nat,
                init@,
            ),
        decreases fuel, 0int, body, 4int, 0int,
    {
        let ghost w = self.world();
        let ghost vs = list_view(items@);
        let mut acc: Value = init;
        let mut i: usize = 0;
        proof {
            lemma_values_view(items@, items@.len() as int);
        }
        while i < items.len()
            invariant
                i <= items@.len(),
                w == self.world(),
                vs == list_view(items@),
                vs.len() == items@.len(),
                forall|j: int| 0 <= j < items@.len() ==> #[trigger] vs[j] == value_view(items@[j]),
                reduce_at(w, vs, 0, params@, *body, env@, old(at)@, fuel as nat, init@)
                    == reduce_at(
                    w,
                    vs,
                    i as int,
                    params@,
                    *body,
                    env@,
                    at@,
                    fuel as nat,
                    acc@,
                ),
            decreases items.len() - i,
        {
            let mut vals: Vec<Value> = Vec::new();
            push_value(&mut vals, copy_value(&acc));
            push_value(&mut vals, copy_value(&items[i]));
            proof {
                assert(list_view(vals@) =~= seq![acc@, vs[i as int]]);
            }
            match self.eval_closure(params, body, &vals, env, at, fuel) {
                Err(s) => {
                    return Err(s);
                },
                Ok(v) => {
                    acc = v;
                },
            }
            i = i + 1;
        }
        Ok(acc)
    }

    fn session_method(
        &self,
        method: &str,
        args: &Vec<Expr>,
        env: &StrMap<Value>,
        at: &mut Track,
        fuel: u64,
    ) -> (r: Result<Value, Stop>)
        ensures
            gave(r, *final(at)) == session_at(
                self.world(),
                method@,
                args@,
                env@,
                old(at)@,
                fuel as nat,
            ),
        decreases fuel, 0int, args, 1int, 0int,
    {
        if same(method, "login") {
            if args.len() == 0 {
                return Err(Stop::Failed("session.login(id) needs an id".to_owned()));
            }
            match self.eval_in(&args[0], env, at, fuel) {
                Err(s) => Err(s),
                Ok(Value::Str(id)) => {
                    at.cookie = Some(session_set_cookie(&id, &self.secret));
                    Ok(Value::Null)
                },
                Ok(_) => Err(Stop::Failed("session.login expects a String id".to_owned())),
            }
        } else if same(method, "logout") {
            at.cookie = Some(session_clear_cookie());
            Ok(Value::Null)
        } else {
            Err(Stop::Failed(cat3("session has no method `", method, "`")))
        }
    }

    fn log_method(
        &self,
        method: &str,
        args: &Vec<Expr>,
        env: &StrMap<Value>,
        at: &mut Track,
        fuel: u64,
    ) -> (r: Result<Value, Stop>)
        ensures
            gave(r, *final(at)) == log_at(
                self.world(),
                method@,
                args@,
                env@,
                old(at)@,
                fuel as nat,
            ),
        decreases fuel, 0int, args, 1int, 0int,
    {
        if args.len() == 0 {
            return Err(Stop::Failed("log needs a message".to_owned()));
        }
        match self.eval_in(&args[0], env, at, fuel) {
            Err(s) => Err(s),
            Ok(v) => match self.ask(Effect::Log(log_text(method, &v)), at) {
                Err(s) => Err(s),
                Ok(_) => Ok(Value::Null),
            },
        }
    }

    fn endpoint_method(
        &self,
        ep: &EndpointNode,
        method: &str,
        args: &Vec<Expr>,
        env: &StrMap<Value>,
        at: &mut Track,
        fuel: u64,
    ) -> (r: Result<Value, Stop>)
        ensures
            gave(r, *final(at)) == endpoint_at(
                self.world(),
                *ep,
                method@,
                args@,
                env@,
                old(at)@,
                fuel as nat,
            ),
        decreases fuel, 0int, args, 1int, 0int,
    {
        if args.len() == 0 {
            return Err(Stop::Failed("endpoint needs a path".to_owned()));
        }
        let path = match self.eval_in(&args[0], env, at, fuel) {
            Err(s) => {
                return Err(s);
            },
            Ok(Value::Str(s)) => s,
            Ok(_) => {
                return Err(Stop::Failed("endpoint path must be a string".to_owned()));
            },
        };
        let url = cat2(&ep.base, &path);
        if same(method, "get") {
            return self.settle(Plan::Ask(Effect::Get(url, token_variable(ep))), at);
        }
        if same(method, "post") {
            if args.len() > 1 {
                return match self.eval_in(&args[1], env, at, fuel) {
                    Err(s) => Err(s),
                    Ok(v) => {
                        let body = match &v {
                            Value::Str(s) => s.clone(),
                            _ => wire_json(&v, self.program),
                        };
                        self.settle(Plan::Ask(Effect::Post(url, body, token_variable(ep))), at)
                    },
                };
            }
            return self.settle(
                Plan::Ask(Effect::Post(url, "".to_owned(), token_variable(ep))),
                at,
            );
        }
        Err(Stop::Failed(cat3("endpoint has no verb `", method, "`")))
    }

    fn sql_and_params(
        &self,
        args: &Vec<Expr>,
        env: &StrMap<Value>,
        at: &mut Track,
        fuel: u64,
    ) -> (r: Result<(String, Vec<Value>), Stop>)
        ensures
            gave_sql(r, *final(at)) == sql_at(self.world(), args@, env@, old(at)@, fuel as nat),
        decreases fuel, 0int, args, 1int, 0int,
    {
        if args.len() == 0 {
            return Err(Stop::Failed("db call needs SQL".to_owned()));
        }
        let sql = match self.eval_in(&args[0], env, at, fuel) {
            Err(s) => {
                return Err(s);
            },
            Ok(Value::Str(s)) => s,
            Ok(_) => {
                return Err(Stop::Failed("db call: SQL must be a string".to_owned()));
            },
        };
        match self.sql_params(args, env, at, fuel) {
            Err(s) => Err(s),
            Ok(vs) => Ok((sql, vs)),
        }
    }

    fn sql_params(
        &self,
        args: &Vec<Expr>,
        env: &StrMap<Value>,
        at: &mut Track,
        fuel: u64,
    ) -> (r: Result<Vec<Value>, Stop>)
        requires
            args@.len() > 0,
        ensures
            gave_list(r, *final(at)) == sql_params_at(
                self.world(),
                args@,
                1,
                env@,
                old(at)@,
                fuel as nat,
                Seq::empty(),
            ),
        decreases fuel, 0int, args, 0int, 0int,
    {
        let ghost w = self.world();
        let mut out: Vec<Value> = Vec::new();
        let mut i: usize = 1;
        proof {
            assert(list_view(out@) =~= Seq::<ValueView>::empty());
        }
        while i < args.len()
            invariant
                1 <= i <= args@.len(),
                w == self.world(),
                sql_params_at(w, args@, 1, env@, old(at)@, fuel as nat, Seq::empty())
                    == sql_params_at(
                    w,
                    args@,
                    i as int,
                    env@,
                    at@,
                    fuel as nat,
                    list_view(out@),
                ),
            decreases args.len() - i,
        {
            match self.eval_in(&args[i], env, at, fuel) {
                Err(s) => {
                    return Err(s);
                },
                Ok(v) => {
                    if !scalar(&v) {
                        return Err(Stop::Failed("db param must be a scalar".to_owned()));
                    }
                    push_value(&mut out, v);
                },
            }
            i = i + 1;
        }
        Ok(out)
    }

    fn db_exec(&self, args: &Vec<Expr>, env: &StrMap<Value>, at: &mut Track, fuel: u64) -> (r: Result<
        Value,
        Stop,
    >)
        ensures
            gave(r, *final(at)) == exec_at(self.world(), args@, env@, old(at)@, fuel as nat),
        decreases fuel, 0int, args, 2int, 0int,
    {
        match self.sql_and_params(args, env, at, fuel) {
            Err(s) => Err(s),
            Ok((sql, vs)) => self.settle(Plan::Ask(Effect::Exec(sql, vs)), at),
        }
    }

    fn db_query(
        &self,
        method: &str,
        args: &Vec<Expr>,
        ty: &Option<String>,
        env: &StrMap<Value>,
        at: &mut Track,
        fuel: u64,
    ) -> (r: Result<Value, Stop>)
        ensures
            gave(r, *final(at)) == query_at(
                self.world(),
                method@,
                args@,
                opt_text(*ty),
                env@,
                old(at)@,
                fuel as nat,
            ),
        decreases fuel, 0int, args, 2int, 0int,
    {
        let (sql, vs) = match self.sql_and_params(args, env, at, fuel) {
            Err(s) => {
                return Err(s);
            },
            Ok(x) => x,
        };
        let cols = match model_for(self.program, method, ty) {
            Some(m) => columns(&self.program.models[m].properties),
            None => {
                let none: Vec<(String, Want)> = Vec::new();
                proof {
                    assert(columns_view(none@, 0) =~= Seq::<(Seq<char>, Want)>::empty());
                }
                none
            },
        };
        match self.ask(Effect::Query(sql, vs, cols), at) {
            Err(s) => Err(s),
            Ok(x) => match x {
                Reply::Rows(rows) => self.settle(query_result(self.program, method, ty, rows), at),
                Reply::Failed(m) => Err(Stop::Failed(m.clone())),
                _ => Err(Stop::Mismatch),
            },
        }
    }

    fn decode_body(&self, body: Value, ty: &str, at: &mut Track) -> (r: Result<Value, Stop>)
        ensures
            gave(r, *final(at)) == decoded_at(self.world(), body@, ty@, old(at)@),
    {
        let text = match body {
            Value::Str(s) => s,
            _ => "".to_owned(),
        };
        let j = jparse(&text);
        let ts = number_texts(&j);
        if ts.len() == 0 {
            let none: StrMap<Number> = StrMap::new();
            return Ok(decode(Some(&j), ty, self.program, &none));
        }
        let asked_for = ts.copy();
        match self.ask(Effect::Numbers(asked_for), at) {
            Err(s) => Err(s),
            Ok(x) => match x {
                Reply::Numbers(ns) => {
                    proof {
                        lemma_numbers_view(ns@, ns@.len() as int);
                    }
                    Ok(decode(Some(&j), ty, self.program, &numbers_for(&ts, ns)))
                },
                Reply::Failed(m) => Err(Stop::Failed(m.clone())),
                _ => Err(Stop::Mismatch),
            },
        }
    }

    fn eval_typed(
        &self,
        e: &Expr,
        ty: &Option<String>,
        env: &StrMap<Value>,
        at: &mut Track,
        fuel: u64,
    ) -> (r: Result<Value, Stop>)
        ensures
            gave(r, *final(at)) == typed_at(
                self.world(),
                *e,
                opt_text(*ty),
                env@,
                old(at)@,
                fuel as nat,
            ),
        decreases fuel, 0int, e, 3int, 0int,
    {
        match e {
            Expr::MethodCall { receiver, method, args } => {
                if is_ident(receiver, "db") && (same(method, "query_one") || same(method, "query")) {
                    return self.db_query(method, args, ty, env, at, fuel);
                }
                if same(method, "get") {
                    if let Some(i) = endpoint_of(self.program, receiver) {
                        if let Some(t) = endpoint_typed_target(self.program, ty) {
                            return match self.endpoint_method(
                                &self.program.endpoints[i],
                                "get",
                                args,
                                env,
                                at,
                                fuel,
                            ) {
                                Err(s) => Err(s),
                                Ok(body) => self.decode_body(body, t, at),
                            };
                        }
                    }
                }
                self.eval_in(e, env, at, fuel)
            },
            _ => self.eval_in(e, env, at, fuel),
        }
    }

    fn call_with(&self, name: &str, args: &Vec<Value>, at: &mut Track, fuel: u64) -> (r: Result<
        Value,
        Stop,
    >)
        ensures
            gave(r, *final(at)) == call_at(
                self.world(),
                name@,
                list_view(args@),
                old(at)@,
                fuel as nat,
            ),
        decreases fuel, 0int, self, 0int, 0int,
    {
        if let Some(p) = builtin(name, args) {
            return self.settle(p, at);
        }
        match find_function(&self.program.functions, name) {
            None => Err(Stop::Failed(cat3("no such function `", name, "`"))),
            Some(i) => {
                if fuel == 0 {
                    return Err(Stop::Spent);
                }
                let f = &self.program.functions[i];
                proof {
                    lemma_values_view(args@, args@.len() as int);
                }
                let mut env = bind_params(&f.params, args);
                match self.exec_block(&f.body, &mut env, &f.return_type, at, fuel - 1) {
                    Err(s) => Err(s),
                    Ok(Flow::Return(v)) => Ok(v),
                    Ok(_) => Ok(Value::Null),
                }
            },
        }
    }

    fn truthy(&self, e: &Expr, env: &StrMap<Value>, at: &mut Track, fuel: u64) -> (r: Result<
        bool,
        Stop,
    >)
        ensures
            gave_truth(r, *final(at)) == truth(
                eval_at(self.world(), *e, env@, old(at)@, fuel as nat),
            ),
        decreases fuel, 0int, e, 3int, 0int,
    {
        match self.eval_in(e, env, at, fuel) {
            Err(s) => Err(s),
            Ok(Value::Bool(b)) => Ok(b),
            Ok(_) => Err(Stop::Failed("condition must be a boolean".to_owned())),
        }
    }

    fn exec_block(
        &self,
        stmts: &Vec<Stmt>,
        env: &mut StrMap<Value>,
        ret: &Option<String>,
        at: &mut Track,
        fuel: u64,
    ) -> (r: Result<Flow, Stop>)
        ensures
            gave_flow(r, final(env)@, *final(at)) == block_at(
                self.world(),
                stmts@,
                0,
                old(env)@,
                opt_text(*ret),
                old(at)@,
                fuel as nat,
            ),
        decreases fuel, 1int, stmts, 0int, 0int,
    {
        let ghost w = self.world();
        let mut i: usize = 0;
        while i < stmts.len()
            invariant
                i <= stmts@.len(),
                w == self.world(),
                block_at(w, stmts@, 0, old(env)@, opt_text(*ret), old(at)@, fuel as nat)
                    == block_at(w, stmts@, i as int, env@, opt_text(*ret), at@, fuel as nat),
            decreases stmts.len() - i,
        {
            match self.exec_stmt(&stmts[i], env, ret, at, fuel) {
                Err(s) => {
                    return Err(s);
                },
                Ok(Flow::Next) => {},
                Ok(other) => {
                    return Ok(other);
                },
            }
            i = i + 1;
        }
        Ok(Flow::Next)
    }

    fn exec_stmt(
        &self,
        s: &Stmt,
        env: &mut StrMap<Value>,
        ret: &Option<String>,
        at: &mut Track,
        fuel: u64,
    ) -> (r: Result<Flow, Stop>)
        ensures
            gave_flow(r, final(env)@, *final(at)) == stmt_at(
                self.world(),
                *s,
                old(env)@,
                opt_text(*ret),
                old(at)@,
                fuel as nat,
            ),
        decreases fuel, 1int, s, 2int, 0int,
    {
        match s {
            Stmt::Let { name, type_ann, value } => match self.eval_typed(
                value,
                type_ann,
                env,
                at,
                fuel,
            ) {
                Err(x) => Err(x),
                Ok(v) => {
                    env.insert(name.clone(), v);
                    Ok(Flow::Next)
                },
            },
            Stmt::Assign { name, value } => match self.eval_in(value, env, at, fuel) {
                Err(x) => Err(x),
                Ok(v) => {
                    env.insert(name.clone(), v);
                    Ok(Flow::Next)
                },
            },
            Stmt::Expr(e) => match self.eval_in(e, env, at, fuel) {
                Err(x) => Err(x),
                Ok(_) => Ok(Flow::Next),
            },
            Stmt::Return(e) => match self.eval_typed(e, ret, env, at, fuel) {
                Err(x) => Err(x),
                Ok(v) => Ok(Flow::Return(v)),
            },
            Stmt::Try { body, handler } => self.exec_block(body, env, ret, at, fuel),
            Stmt::If { cond, then_body, else_body } => match self.truthy(cond, env, at, fuel) {
                Err(x) => Err(x),
                Ok(b) => if b {
                    self.exec_block(then_body, env, ret, at, fuel)
                } else {
                    self.exec_block(else_body, env, ret, at, fuel)
                },
            },
            Stmt::For { var, iter, body } => match self.eval_in(iter, env, at, fuel) {
                Err(x) => Err(x),
                Ok(Value::List(items)) => self.exec_for(var, &items, body, env, ret, at, fuel),
                Ok(_) => Err(Stop::Failed("`for` expects a list or range".to_owned())),
            },
            Stmt::While { cond, body } => self.exec_while(s, env, ret, at, fuel),
            Stmt::Break => Ok(Flow::Break),
            Stmt::Continue => Ok(Flow::Continue),
            Stmt::Match { scrutinee, arms } => match self.eval_in(scrutinee, env, at, fuel) {
                Err(x) => Err(x),
                Ok(Value::Str(v)) => match find_arm(arms, &v) {
                    Some(i) => self.exec_block(&arms[i].body, env, ret, at, fuel),
                    None => Ok(Flow::Next),
                },
                Ok(_) => Err(Stop::Failed("`match` scrutinee must be an enum".to_owned())),
            },
            Stmt::Transaction(body) => match self.ask(Effect::Begin, at) {
                Err(x) => Err(x),
                Ok(reply) => match reply {
                    Reply::Done => {
                        let done = self.exec_block(body, env, ret, at, fuel);
                        self.end_transaction(done, env, at)
                    },
                    Reply::Failed(m) => Err(Stop::Failed(m.clone())),
                    _ => Err(Stop::Mismatch),
                },
            },
        }
    }

    fn end_transaction(
        &self,
        done: Result<Flow, Stop>,
        env: &StrMap<Value>,
        at: &mut Track,
    ) -> (r: Result<Flow, Stop>)
        ensures
            gave_flow(r, env@, *final(at)) == closed_at(
                self.world(),
                gave_flow(done, env@, *old(at)),
            ),
    {
        match done {
            Ok(f) => match self.ask(Effect::End(true), at) {
                Err(s) => Err(s),
                Ok(_) => Ok(f),
            },
            Err(Stop::Failed(m)) => match self.ask(Effect::End(false), at) {
                Err(s) => Err(s),
                Ok(_) => Err(Stop::Failed(m)),
            },
            Err(s) => Err(s),
        }
    }

    fn exec_for(
        &self,
        var: &String,
        items: &Vec<Value>,
        body: &Vec<Stmt>,
        env: &mut StrMap<Value>,
        ret: &Option<String>,
        at: &mut Track,
        fuel: u64,
    ) -> (r: Result<Flow, Stop>)
        ensures
            gave_flow(r, final(env)@, *final(at)) == for_at(
                self.world(),
                var@,
                list_view(items@),
                0,
                body@,
                old(env)@,
                opt_text(*ret),
                old(at)@,
                fuel as nat,
            ),
        decreases fuel, 1int, body, 1int, 0int,
    {
        let ghost w = self.world();
        let ghost vs = list_view(items@);
        let mut k: usize = 0;
        proof {
            lemma_values_view(items@, items@.len() as int);
        }
        while k < items.len()
            invariant
                k <= items@.len(),
                w == self.world(),
                vs == list_view(items@),
                vs.len() == items@.len(),
                forall|j: int| 0 <= j < items@.len() ==> #[trigger] vs[j] == value_view(items@[j]),
                for_at(w, var@, vs, 0, body@, old(env)@, opt_text(*ret), old(at)@, fuel as nat)
                    == for_at(
                    w,
                    var@,
                    vs,
                    k as int,
                    body@,
                    env@,
                    opt_text(*ret),
                    at@,
                    fuel as nat,
                ),
            decreases items.len() - k,
        {
            let item = copy_value(&items[k]);
            proof {
                assert(vs[k as int] == item@);
            }
            env.insert(var.clone(), item);
            match self.exec_block(body, env, ret, at, fuel) {
                Err(s) => {
                    return Err(s);
                },
                Ok(Flow::Break) => {
                    return Ok(Flow::Next);
                },
                Ok(Flow::Return(v)) => {
                    return Ok(Flow::Return(v));
                },
                Ok(_) => {},
            }
            k = k + 1;
        }
        Ok(Flow::Next)
    }

    fn exec_while(
        &self,
        s: &Stmt,
        env: &mut StrMap<Value>,
        ret: &Option<String>,
        at: &mut Track,
        fuel: u64,
    ) -> (r: Result<Flow, Stop>)
        ensures
            gave_flow(r, final(env)@, *final(at)) == while_at(
                self.world(),
                *s,
                old(env)@,
                opt_text(*ret),
                old(at)@,
                fuel as nat,
            ),
        decreases fuel, 1int, s, 1int, 0int,
    {
        match s {
            Stmt::While { cond, body } => {
                let ghost w = self.world();
                let mut left: u64 = fuel;
                loop
                    invariant
                        left <= fuel,
                        w == self.world(),
                        *s == (Stmt::While { cond: *cond, body: *body }),
                        while_at(w, *s, old(env)@, opt_text(*ret), old(at)@, fuel as nat)
                            == while_at(w, *s, env@, opt_text(*ret), at@, left as nat),
                    decreases left,
                {
                    match self.truthy(cond, env, at, left) {
                        Err(x) => {
                            return Err(x);
                        },
                        Ok(b) => {
                            if !b {
                                return Ok(Flow::Next);
                            }
                        },
                    }
                    match self.exec_block(body, env, ret, at, left) {
                        Err(x) => {
                            return Err(x);
                        },
                        Ok(Flow::Break) => {
                            return Ok(Flow::Next);
                        },
                        Ok(Flow::Return(v)) => {
                            return Ok(Flow::Return(v));
                        },
                        Ok(_) => {},
                    }
                    if left == 0 {
                        return Err(Stop::Spent);
                    }
                    left = left - 1;
                }
            },
            _ => Ok(Flow::Next),
        }
    }
}

} // verus!
