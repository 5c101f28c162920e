//! What the run-time computes by itself - operators, built-in functions, the methods of texts and
//! lists - and what it asks its host for.
use vstd::prelude::*;
use vstd::string::*;

use crate::arith::{
    can_divide, divides_exactly, equal, int_minus, int_over, int_times, minus, nearest, nearest_of,
    over, saturated, times, values_eq,
};
use crate::ast::BinOp;
use crate::decimal::{
    dec_apply, dec_of, dec_order, dec_place, dec_result, dec_text, op_fits, aligned, Compared, Computed,
    DecOp, Place,
};
use crate::num::{i64_text, int_text};
use crate::scan::{find_chars, find_from, replace, replace_text, split, split_text, trim, trim_text};
use crate::session::{argon2_accepts, verify_password};
use crate::text::{cat2, cat3, chars_of, has_prefix, same, slice_text, starts_with, Parts};
use crate::unicode::{lower_text, lowercase, upper_text, uppercase};
use crate::value::{
    copy_value, copy_values, display, display_text, lemma_values_view, list_view, push_value,
    trace, trace_text, value_view, Value, ValueView,
};

verus! {

/// The kind of a database column.
#[derive(Debug, Clone, Copy, PartialEq, Eq, Structural)]
pub enum Want {
    Int,
    Float,
    Bool,
    Text,
}

/// What the run-time asks its host for.
#[derive(Debug)]
pub enum Effect {
    /// The numbers that decimal texts stand for.
    Numbers(Parts),
    /// An operation on two numbers, of which one is a fraction or too large.
    Arith(BinOp, Value, Value),
    /// `abs`, `min` or `max` of fractions.
    Math(String, Vec<Value>),
    /// The clock in milliseconds.
    Now,
    /// The clock in nanoseconds.
    Nanos,
    /// A salted hash of a password.
    Hash(String),
    /// A line for the log.
    Log(String),
    /// The body that a URL answers with, with the token that a variable holds.
    Get(String, Option<String>),
    /// The status that a URL answers a body with, with the token that a variable holds.
    Post(String, String, Option<String>),
    /// The start of a transaction.
    Begin,
    /// The end of a transaction: kept, or undone.
    End(bool),
    /// A statement with its parameters, and how many rows it touched.
    Exec(String, Vec<Value>),
    /// A query with its parameters, and the columns to read of each row.
    Query(String, Vec<Value>, Vec<(String, Want)>),
}

/// What the run-time asks its host for, by its texts.
pub enum EffectView {
    Numbers(Seq<Seq<char>>),
    Arith(BinOp, ValueView, ValueView),
    Math(Seq<char>, Seq<ValueView>),
    Now,
    Nanos,
    Hash(Seq<char>),
    Log(Seq<char>),
    Get(Seq<char>, Option<Seq<char>>),
    Post(Seq<char>, Seq<char>, Option<Seq<char>>),
    Begin,
    End(bool),
    Exec(Seq<char>, Seq<ValueView>),
    Query(Seq<char>, Seq<ValueView>, Seq<(Seq<char>, Want)>),
}

/// Columns, by their texts.
pub open spec fn columns_view(cs: Seq<(String, Want)>, n: int) -> Seq<(Seq<char>, Want)>
    decreases n,
{
    if n <= 0 || n > cs.len() {
        Seq::empty()
    } else {
        columns_view(cs, n - 1).push((cs[n - 1].0@, cs[n - 1].1))
    }
}

impl View for Effect {
    type V = EffectView;

    open spec fn view(&self) -> EffectView {
        match *self {
            Effect::Numbers(ts) => EffectView::Numbers(ts@),
            Effect::Arith(op, l, r) => EffectView::Arith(op, l@, r@),
            Effect::Math(name, args) => EffectView::Math(name@, list_view(args@)),
            Effect::Now => EffectView::Now,
            Effect::Nanos => EffectView::Nanos,
            Effect::Hash(s) => EffectView::Hash(s@),
            Effect::Log(s) => EffectView::Log(s@),
            Effect::Get(url, token) => EffectView::Get(url@, crate::resolve::opt_text(token)),
            Effect::Post(url, body, token) => EffectView::Post(
                url@,
                body@,
                crate::resolve::opt_text(token),
            ),
            Effect::Begin => EffectView::Begin,
            Effect::End(kept) => EffectView::End(kept),
            Effect::Exec(sql, args) => EffectView::Exec(sql@, list_view(args@)),
            Effect::Query(sql, args, cols) => EffectView::Query(
                sql@,
                list_view(args@),
                columns_view(cols@, cols@.len() as int),
            ),
        }
    }
}

/// How a step goes on: with a value, with an error, with a question to the host, or not at all where
/// an integer overflows.
#[derive(Debug)]
pub enum Plan {
    Value(Value),
    Failed(String),
    Overflow,
    Ask(Effect),
}

/// How a step goes on, by its texts.
pub enum PlanView {
    Value(ValueView),
    Failed(Seq<char>),
    Overflow,
    Ask(EffectView),
}

impl View for Plan {
    type V = PlanView;

    open spec fn view(&self) -> PlanView {
        match *self {
            Plan::Value(v) => PlanView::Value(v@),
            Plan::Failed(m) => PlanView::Failed(m@),
            Plan::Overflow => PlanView::Overflow,
            Plan::Ask(e) => PlanView::Ask(e@),
        }
    }
}

/// Whether a value is a number.
pub open spec fn is_number(v: ValueView) -> bool {
    v is Int || v is Float
}

fn number(v: &Value) -> (r: bool)
    ensures
        r == is_number(v@),
{
    match v {
        Value::Int(_) => true,
        Value::Float(_) => true,
        _ => false,
    }
}

/// An operation on numbers that are not both integers.
pub open spec fn asked_arith(op: BinOp, l: ValueView, r: ValueView, error: Seq<char>) -> PlanView {
    if is_number(l) && is_number(r) {
        PlanView::Ask(EffectView::Arith(op, l, r))
    } else {
        PlanView::Failed(error)
    }
}

/// Whether an order holds between two integers, each taken as the nearest fraction.
pub open spec fn int_compares(op: BinOp, a: int, b: int) -> bool {
    match op {
        BinOp::Lt => nearest(a) < nearest(b),
        BinOp::Gt => nearest(a) > nearest(b),
        BinOp::LtEq => nearest(a) <= nearest(b),
        _ => nearest(a) >= nearest(b),
    }
}

/// What an operator does with its operands.
pub open spec fn operated(op: BinOp, l: ValueView, r: ValueView) -> PlanView {
    match op {
        BinOp::Add => match (l, r) {
            (ValueView::Int(a), ValueView::Int(b)) => if i64::MIN <= a + b <= i64::MAX {
                PlanView::Value(ValueView::Int(a + b))
            } else {
                PlanView::Overflow
            },
            (ValueView::Str(a), b) => PlanView::Value(ValueView::Str(a + display_text(b))),
            (a, ValueView::Str(b)) => PlanView::Value(ValueView::Str(display_text(a) + b)),
            _ => asked_arith(op, l, r, "arithmetic needs numbers"@),
        },
        BinOp::Sub => match (l, r) {
            (ValueView::Int(a), ValueView::Int(b)) => PlanView::Value(
                ValueView::Int(int_minus(a, b)),
            ),
            _ => asked_arith(op, l, r, "arithmetic needs numbers"@),
        },
        BinOp::Mul => match (l, r) {
            (ValueView::Int(a), ValueView::Int(b)) => PlanView::Value(
                ValueView::Int(int_times(a, b)),
            ),
            _ => asked_arith(op, l, r, "arithmetic needs numbers"@),
        },
        BinOp::Div => match (l, r) {
            (ValueView::Int(a), ValueView::Int(b)) => if divides_exactly(a, b) {
                PlanView::Value(ValueView::Int(int_over(a, b)))
            } else {
                PlanView::Ask(EffectView::Arith(op, l, r))
            },
            _ => asked_arith(op, l, r, "arithmetic needs numbers"@),
        },
        BinOp::Eq => PlanView::Value(ValueView::Bool(equal(l, r))),
        BinOp::NotEq => PlanView::Value(ValueView::Bool(!equal(l, r))),
        BinOp::Lt | BinOp::Gt | BinOp::LtEq | BinOp::GtEq => match (l, r) {
            (ValueView::Int(a), ValueView::Int(b)) => PlanView::Value(
                ValueView::Bool(int_compares(op, a, b)),
            ),
            _ => asked_arith(op, l, r, "comparison needs numbers"@),
        },
        BinOp::And => match (l, r) {
            (ValueView::Bool(a), ValueView::Bool(b)) => PlanView::Value(ValueView::Bool(a && b)),
            _ => PlanView::Failed("&& needs booleans"@),
        },
        BinOp::Or => match (l, r) {
            (ValueView::Bool(a), ValueView::Bool(b)) => PlanView::Value(ValueView::Bool(a || b)),
            _ => PlanView::Failed("|| needs booleans"@),
        },
    }
}

fn ask_arith(op: BinOp, l: Value, r: Value, error: &str) -> (p: Plan)
    ensures
        p@ == asked_arith(op, l@, r@, error@),
{
    if number(&l) && number(&r) {
        Plan::Ask(Effect::Arith(op, l, r))
    } else {
        Plan::Failed(error.to_owned())
    }
}

fn num2(op: BinOp, l: Value, r: Value) -> (p: Plan)
    requires
        op == BinOp::Sub || op == BinOp::Mul || op == BinOp::Div,
    ensures
        p@ == operated(op, l@, r@),
{
    match (&l, &r) {
        (Value::Int(a), Value::Int(b)) => match op {
            BinOp::Sub => Plan::Value(Value::Int(minus(*a, *b))),
            BinOp::Mul => Plan::Value(Value::Int(times(*a, *b))),
            _ => if can_divide(*a, *b) {
                Plan::Value(Value::Int(over(*a, *b)))
            } else {
                Plan::Ask(Effect::Arith(op, l, r))
            },
        },
        _ => ask_arith(op, l, r, "arithmetic needs numbers"),
    }
}

fn compares(op: BinOp, a: i64, b: i64) -> (r: bool)
    ensures
        r == int_compares(op, a as int, b as int),
{
    let x: i128 = nearest_of(a as i128);
    let y: i128 = nearest_of(b as i128);
    match op {
        BinOp::Lt => x < y,
        BinOp::Gt => x > y,
        BinOp::LtEq => x <= y,
        _ => x >= y,
    }
}

/// What an operator does with its operands.
pub fn binary(op: BinOp, l: Value, r: Value) -> (p: Plan)
    ensures
        p@ == operated(op, l@, r@),
{
    match op {
        BinOp::Add => match (&l, &r) {
            (Value::Int(a), Value::Int(b)) => match a.checked_add(*b) {
                Some(n) => Plan::Value(Value::Int(n)),
                None => Plan::Overflow,
            },
            (Value::Str(a), _) => Plan::Value(Value::Str(cat2(a, &display(&r)))),
            (_, Value::Str(b)) => Plan::Value(Value::Str(cat2(&display(&l), b))),
            _ => ask_arith(op, l, r, "arithmetic needs numbers"),
        },
        BinOp::Sub => num2(op, l, r),
        BinOp::Mul => num2(op, l, r),
        BinOp::Div => num2(op, l, r),
        BinOp::Eq => Plan::Value(Value::Bool(values_eq(&l, &r))),
        BinOp::NotEq => Plan::Value(Value::Bool(!values_eq(&l, &r))),
        BinOp::Lt | BinOp::Gt | BinOp::LtEq | BinOp::GtEq => match (&l, &r) {
            (Value::Int(a), Value::Int(b)) => Plan::Value(Value::Bool(compares(op, *a, *b))),
            _ => ask_arith(op, l, r, "comparison needs numbers"),
        },
        BinOp::And => match (&l, &r) {
            (Value::Bool(a), Value::Bool(b)) => Plan::Value(Value::Bool(*a && *b)),
            _ => Plan::Failed("&& needs booleans".to_owned()),
        },
        BinOp::Or => match (&l, &r) {
            (Value::Bool(a), Value::Bool(b)) => Plan::Value(Value::Bool(*a || *b)),
            _ => Plan::Failed("|| needs booleans".to_owned()),
        },
    }
}

/// Whether the first `n` values are integers.
pub open spec fn ints_only(vs: Seq<ValueView>, n: int) -> bool
    decreases n,
{
    if n <= 0 || n > vs.len() {
        true
    } else {
        ints_only(vs, n - 1) && vs[n - 1] is Int
    }
}

fn all_ints(vs: &Vec<Value>) -> (r: bool)
    ensures
        r == ints_only(list_view(vs@), vs@.len() as int),
{
    proof {
        lemma_values_view(vs@, vs@.len() as int);
    }
    let mut out: bool = true;
    let mut i: usize = 0;
    while i < vs.len()
        invariant
            i <= vs@.len(),
            list_view(vs@).len() == vs@.len(),
            forall|j: int|
                0 <= j < vs@.len() ==> #[trigger] list_view(vs@)[j] == value_view(vs@[j]),
            out == ints_only(list_view(vs@), i as int),
        decreases vs.len() - i,
    {
        let here: bool = match &vs[i] {
            Value::Int(_) => true,
            _ => false,
        };
        out = out && here;
        i = i + 1;
    }
    out
}

/// The magnitude of an integer.
pub open spec fn magnitude(n: int) -> int {
    if n < 0 {
        -n
    } else {
        n
    }
}

/// The smaller or the larger of two integers.
pub open spec fn picked(low: bool, a: int, b: int) -> int {
    if low == (a <= b) {
        a
    } else {
        b
    }
}

/// `abs`, `min` and `max`: an integer where all arguments are, else a fraction.
pub open spec fn math_result(name: Seq<char>, args: Seq<ValueView>) -> PlanView {
    if args.len() == 0 {
        PlanView::Failed("math fn needs an argument"@)
    } else if !is_number(args[0]) {
        PlanView::Failed("math fn needs a number"@)
    } else if name == "abs"@ {
        if ints_only(args, args.len() as int) {
            PlanView::Value(ValueView::Int(saturated(magnitude(nearest(args[0]->Int_0)))))
        } else {
            PlanView::Ask(EffectView::Math(name, args))
        }
    } else if name == "min"@ || name == "max"@ {
        if args.len() == 1 {
            PlanView::Failed("min/max need two arguments"@)
        } else if !is_number(args[1]) {
            PlanView::Failed("min/max need numbers"@)
        } else if ints_only(args, args.len() as int) {
            PlanView::Value(
                ValueView::Int(
                    saturated(
                        picked(name == "min"@, nearest(args[0]->Int_0), nearest(args[1]->Int_0)),
                    ),
                ),
            )
        } else {
            PlanView::Ask(EffectView::Math(name, args))
        }
    } else {
        PlanView::Failed("unknown math fn `"@ + name + "`"@)
    }
}

proof fn lemma_ints_only(vs: Seq<ValueView>, n: int, i: int)
    requires
        ints_only(vs, n),
        0 <= i < n <= vs.len(),
    ensures
        vs[i] is Int,
    decreases n,
{
    if i < n - 1 {
        lemma_ints_only(vs, n - 1, i);
    }
}

fn clamp_int(n: i128) -> (r: Value)
    ensures
        r@ == ValueView::Int(saturated(n as int)),
{
    if n > i64::MAX as i128 {
        Value::Int(i64::MAX)
    } else if n < i64::MIN as i128 {
        Value::Int(i64::MIN)
    } else {
        Value::Int(n as i64)
    }
}

/// `abs`, `min` and `max`.
pub fn math_fn(name: &str, args: Vec<Value>) -> (p: Plan)
    ensures
        p@ == math_result(name@, list_view(args@)),
{
    let ghost vs = list_view(args@);
    proof {
        lemma_values_view(args@, args@.len() as int);
    }
    if args.len() == 0 {
        return Plan::Failed("math fn needs an argument".to_owned());
    }
    proof {
        assert(vs[0] == value_view(args@[0]));
    }
    if !number(&args[0]) {
        return Plan::Failed("math fn needs a number".to_owned());
    }
    let ints: bool = all_ints(&args);
    if same(name, "abs") {
        if ints {
            proof {
                lemma_ints_only(vs, args@.len() as int, 0);
            }
            if let Value::Int(n) = &args[0] {
                let x: i128 = nearest_of(*n as i128);
                proof {
                    crate::arith::lemma_nearest_bound(*n as int);
                }
                return Plan::Value(
                    clamp_int(
                        if x < 0 {
                            -x
                        } else {
                            x
                        },
                    ),
                );
            }
        }
        return Plan::Ask(Effect::Math(name.to_owned(), args));
    }
    if same(name, "min") || same(name, "max") {
        if args.len() == 1 {
            return Plan::Failed("min/max need two arguments".to_owned());
        }
        proof {
            assert(vs[1] == value_view(args@[1]));
        }
        if !number(&args[1]) {
            return Plan::Failed("min/max need numbers".to_owned());
        }
        if ints {
            proof {
                lemma_ints_only(vs, args@.len() as int, 0);
                lemma_ints_only(vs, args@.len() as int, 1);
            }
            if let Value::Int(a) = &args[0] {
                if let Value::Int(b) = &args[1] {
                    let x: i128 = nearest_of(*a as i128);
                    let y: i128 = nearest_of(*b as i128);
                    let low: bool = same(name, "min");
                    return Plan::Value(
                        clamp_int(
                            if low == (x <= y) {
                                x
                            } else {
                                y
                            },
                        ),
                    );
                }
            }
        }
        return Plan::Ask(Effect::Math(name.to_owned(), args));
    }
    Plan::Failed(cat3("unknown math fn `", name, "`"))
}

/// The decimal text that an operand of a decimal operation is, or the error that it is none.
pub open spec fn dec_operand(v: Option<ValueView>) -> Result<Seq<char>, Seq<char>> {
    match v {
        Some(ValueView::Str(s)) => Ok(s),
        Some(ValueView::Int(n)) => Ok(int_text(n)),
        Some(other) => Err(
            "decimal op needs a Decimal/Int, got Some("@ + trace_text(other) + ")"@,
        ),
        None => Err("decimal op needs a Decimal/Int, got None"@),
    }
}

/// The value at an index of a list.
pub open spec fn nth(vs: Seq<ValueView>, i: int) -> Option<ValueView> {
    if 0 <= i < vs.len() {
        Some(vs[i])
    } else {
        None
    }
}

/// A result of a text, by its characters.
pub open spec fn text_result(r: Result<String, String>) -> Result<Seq<char>, Seq<char>> {
    match r {
        Ok(s) => Ok(s@),
        Err(s) => Err(s@),
    }
}

fn dec_str(args: &Vec<Value>, i: usize) -> (r: Result<String, String>)
    ensures
        text_result(r) == dec_operand(nth(list_view(args@), i as int)),
{
    proof {
        lemma_values_view(args@, args@.len() as int);
    }
    if i < args.len() {
        proof {
            assert(list_view(args@)[i as int] == value_view(args@[i as int]));
        }
        match &args[i] {
            Value::Str(s) => Ok(s.clone()),
            Value::Int(n) => Ok(i64_text(*n)),
            _ => Err(cat3("decimal op needs a Decimal/Int, got Some(", &trace(&args[i]), ")")),
        }
    } else {
        Err("decimal op needs a Decimal/Int, got None".to_owned())
    }
}

/// A decimal operation on two texts.
pub open spec fn dec_computed(op: DecOp, a: Seq<char>, b: Seq<char>) -> PlanView {
    if a.len() + b.len() >= usize::MAX {
        PlanView::Overflow
    } else if dec_of(a) is None || dec_of(b) is None {
        PlanView::Failed("invalid Decimal"@)
    } else if !op_fits(op, dec_of(a)->0, dec_of(b)->0) {
        PlanView::Overflow
    } else {
        PlanView::Value(ValueView::Str(dec_text(dec_result(op, dec_of(a)->0, dec_of(b)->0))))
    }
}

/// Whether an order holds, of where the first of two numbers lies.
pub open spec fn order_holds(op: Seq<char>, p: Place) -> bool {
    if op == "lt"@ {
        p is Below
    } else if op == "gt"@ {
        p is Above
    } else if op == "le"@ {
        !(p is Above)
    } else {
        !(p is Below)
    }
}

/// A decimal comparison of two texts.
pub open spec fn dec_ordered(op: Seq<char>, a: Seq<char>, b: Seq<char>) -> PlanView {
    if dec_of(a) is None || dec_of(b) is None {
        PlanView::Failed("invalid Decimal"@)
    } else if !aligned(dec_of(a)->0, dec_of(b)->0) {
        PlanView::Overflow
    } else {
        PlanView::Value(
            ValueView::Bool(order_holds(op, dec_place(dec_of(a)->0, dec_of(b)->0))),
        )
    }
}

/// A decimal operation or comparison by its name.
pub open spec fn dec_called(op: Seq<char>, args: Seq<ValueView>) -> PlanView {
    match dec_operand(nth(args, 0)) {
        Err(m) => PlanView::Failed(m),
        Ok(a) => match dec_operand(nth(args, 1)) {
            Err(m) => PlanView::Failed(m),
            Ok(b) => if op == "add"@ {
                dec_computed(DecOp::Add, a, b)
            } else if op == "sub"@ {
                dec_computed(DecOp::Sub, a, b)
            } else if op == "mul"@ {
                dec_computed(DecOp::Mul, a, b)
            } else if op == "lt"@ || op == "gt"@ || op == "le"@ || op == "ge"@ {
                dec_ordered(op, a, b)
            } else {
                PlanView::Failed("unknown decimal op `"@ + op + "`"@)
            },
        },
    }
}

fn dec_compute(op: DecOp, a: &str, b: &str) -> (p: Plan)
    ensures
        p@ == dec_computed(op, a@, b@),
{
    let m: usize = a.unicode_len();
    let n: usize = b.unicode_len();
    if n == usize::MAX || m >= usize::MAX - n {
        return Plan::Overflow;
    }
    match dec_apply(op, a, b) {
        Computed::Text(t) => Plan::Value(Value::Str(t)),
        Computed::Invalid => Plan::Failed("invalid Decimal".to_owned()),
        Computed::Overflow => Plan::Overflow,
    }
}

fn dec_compare(op: &str, a: &str, b: &str) -> (p: Plan)
    ensures
        p@ == dec_ordered(op@, a@, b@),
{
    match dec_order(a, b) {
        Compared::At(place) => {
            let below: bool = matches!(place, Place::Below);
            let above: bool = matches!(place, Place::Above);
            Plan::Value(
                Value::Bool(
                    if same(op, "lt") {
                        below
                    } else if same(op, "gt") {
                        above
                    } else if same(op, "le") {
                        !above
                    } else {
                        !below
                    },
                ),
            )
        },
        Compared::Invalid => Plan::Failed("invalid Decimal".to_owned()),
        Compared::Overflow => Plan::Overflow,
    }
}

fn dec_call(op: &str, args: &Vec<Value>) -> (p: Plan)
    ensures
        p@ == dec_called(op@, list_view(args@)),
{
    let a = match dec_str(args, 0) {
        Ok(s) => s,
        Err(m) => {
            return Plan::Failed(m);
        },
    };
    let b = match dec_str(args, 1) {
        Ok(s) => s,
        Err(m) => {
            return Plan::Failed(m);
        },
    };
    if same(op, "add") {
        dec_compute(DecOp::Add, &a, &b)
    } else if same(op, "sub") {
        dec_compute(DecOp::Sub, &a, &b)
    } else if same(op, "mul") {
        dec_compute(DecOp::Mul, &a, &b)
    } else if same(op, "lt") || same(op, "gt") || same(op, "le") || same(op, "ge") {
        dec_compare(op, &a, &b)
    } else {
        Plan::Failed(cat3("unknown decimal op `", op, "`"))
    }
}

/// Whether one of the first `n` values is equal to another.
pub open spec fn any_equal(vs: Seq<ValueView>, n: int, needle: ValueView) -> bool
    decreases n,
{
    if n <= 0 || n > vs.len() {
        false
    } else {
        any_equal(vs, n - 1, needle) || equal(vs[n - 1], needle)
    }
}

fn holds_equal(vs: &Vec<Value>, needle: &Value) -> (r: bool)
    ensures
        r == any_equal(list_view(vs@), vs@.len() as int, needle@),
{
    proof {
        lemma_values_view(vs@, vs@.len() as int);
    }
    let mut out: bool = false;
    let mut i: usize = 0;
    while i < vs.len()
        invariant
            i <= vs@.len(),
            list_view(vs@).len() == vs@.len(),
            forall|j: int|
                0 <= j < vs@.len() ==> #[trigger] list_view(vs@)[j] == value_view(vs@[j]),
            out == any_equal(list_view(vs@), i as int, needle@),
        decreases vs.len() - i,
    {
        let here: bool = values_eq(&vs[i], needle);
        out = out || here;
        i = i + 1;
    }
    out
}

/// What a list holds, or what is at an index of it; null where there is nothing.
pub open spec fn nth_or_null(vs: Seq<ValueView>, i: int) -> ValueView {
    match nth(vs, i) {
        Some(v) => v,
        None => ValueView::Null,
    }
}

fn at_or_null(vs: &Vec<Value>, i: usize) -> (r: Value)
    ensures
        r@ == nth_or_null(list_view(vs@), i as int),
{
    proof {
        lemma_values_view(vs@, vs@.len() as int);
    }
    if i < vs.len() {
        proof {
            assert(list_view(vs@)[i as int] == value_view(vs@[i as int]));
        }
        copy_value(&vs[i])
    } else {
        Value::Null
    }
}

/// What a list holds at an integer index; null where there is nothing.
pub fn at_index(vs: &Vec<Value>, n: i64) -> (r: Value)
    ensures
        r@ == nth_or_null(list_view(vs@), n as int),
{
    proof {
        lemma_values_view(vs@, vs@.len() as int);
    }
    if n >= 0 && (n as u64) < vs.len() as u64 {
        at_or_null(vs, n as usize)
    } else {
        Value::Null
    }
}

/// Whether the values of a list have an equal to another: the built-in `contains`.
pub open spec fn contains_called(args: Seq<ValueView>) -> PlanView {
    match nth(args, 0) {
        Some(ValueView::List(items)) => PlanView::Value(
            ValueView::Bool(any_equal(items, items.len() as int, nth_or_null(args, 1))),
        ),
        _ => PlanView::Failed("`contains` needs a list"@),
    }
}

fn contains_call(args: &Vec<Value>) -> (p: Plan)
    ensures
        p@ == contains_called(list_view(args@)),
{
    proof {
        lemma_values_view(args@, args@.len() as int);
    }
    if args.len() > 0 {
        proof {
            assert(list_view(args@)[0] == value_view(args@[0]));
        }
        if let Value::List(items) = &args[0] {
            let needle = at_or_null(args, 1);
            proof {
                lemma_values_view(items@, items@.len() as int);
            }
            return Plan::Value(Value::Bool(holds_equal(items, &needle)));
        }
    }
    Plan::Failed("`contains` needs a list".to_owned())
}

/// What calling a built-in function does, where there is one of this name.
pub open spec fn builtin_called(name: Seq<char>, args: Seq<ValueView>) -> Option<PlanView> {
    if name == "uid"@ {
        Some(PlanView::Ask(EffectView::Nanos))
    } else if name == "hash"@ {
        Some(hash_called(args))
    } else if name == "verify"@ {
        Some(verify_called(args))
    } else if name == "now"@ {
        Some(PlanView::Ask(EffectView::Now))
    } else if name == "decimal"@ {
        Some(PlanView::Value(nth_or_null(args, 0)))
    } else if has_prefix(name, "__dec_"@) {
        Some(dec_called(name.subrange("__dec_"@.len() as int, name.len() as int), args))
    } else if name == "__list_contains"@ {
        Some(contains_called(args))
    } else if name == "__str_concat"@ && args.len() == 2 {
        Some(PlanView::Value(ValueView::Str(display_text(args[0]) + display_text(args[1]))))
    } else if name == "abs"@ || name == "min"@ || name == "max"@ {
        Some(math_result(name, args))
    } else {
        None
    }
}

/// The question for a salted hash of a password, given as a value.
pub open spec fn hash_called(args: Seq<ValueView>) -> PlanView {
    match nth(args, 0) {
        Some(ValueView::Str(s)) => PlanView::Ask(EffectView::Hash(s)),
        _ => PlanView::Failed("hash() expects a string"@),
    }
}

fn hash_call(args: &Vec<Value>) -> (p: Plan)
    ensures
        p@ == hash_called(list_view(args@)),
{
    proof {
        lemma_values_view(args@, args@.len() as int);
    }
    if args.len() > 0 {
        proof {
            assert(list_view(args@)[0] == value_view(args@[0]));
        }
        if let Value::Str(s) = &args[0] {
            return Plan::Ask(Effect::Hash(s.clone()));
        }
    }
    Plan::Failed("hash() expects a string".to_owned())
}

/// Whether a stored hash accepts a password, both given as values.
pub open spec fn verify_called(args: Seq<ValueView>) -> PlanView {
    match (nth(args, 0), nth(args, 1)) {
        (Some(ValueView::Str(p)), Some(ValueView::Str(h))) => PlanView::Value(
            ValueView::Bool(argon2_accepts(p, h)),
        ),
        _ => PlanView::Failed("verify() expects (password, hash)"@),
    }
}

fn verify_call(args: &Vec<Value>) -> (p: Plan)
    ensures
        p@ == verify_called(list_view(args@)),
{
    proof {
        lemma_values_view(args@, args@.len() as int);
    }
    if args.len() > 1 {
        proof {
            assert(list_view(args@)[0] == value_view(args@[0]));
            assert(list_view(args@)[1] == value_view(args@[1]));
        }
        if let Value::Str(p) = &args[0] {
            if let Value::Str(h) = &args[1] {
                return Plan::Value(Value::Bool(verify_password(p, h)));
            }
        }
    }
    Plan::Failed("verify() expects (password, hash)".to_owned())
}

/// What calling a built-in function does, where there is one of this name.
pub fn builtin(name: &str, args: &Vec<Value>) -> (r: Option<Plan>)
    ensures
        match r {
            Some(p) => builtin_called(name@, list_view(args@)) == Some(p@),
            None => builtin_called(name@, list_view(args@)) is None,
        },
{
    proof {
        lemma_values_view(args@, args@.len() as int);
    }
    if same(name, "uid") {
        Some(Plan::Ask(Effect::Nanos))
    } else if same(name, "hash") {
        Some(hash_call(args))
    } else if same(name, "verify") {
        Some(verify_call(args))
    } else if same(name, "now") {
        Some(Plan::Ask(Effect::Now))
    } else if same(name, "decimal") {
        Some(Plan::Value(at_or_null(args, 0)))
    } else if starts_with(name, "__dec_") {
        let b = chars_of(name);
        let k: usize = "__dec_".unicode_len();
        Some(dec_call(&slice_text(&b, k, b.len()), args))
    } else if same(name, "__list_contains") {
        Some(contains_call(args))
    } else if same(name, "__str_concat") && args.len() == 2 {
        proof {
            assert(list_view(args@)[0] == value_view(args@[0]));
            assert(list_view(args@)[1] == value_view(args@[1]));
        }
        Some(Plan::Value(Value::Str(cat2(&display(&args[0]), &display(&args[1])))))
    } else if same(name, "abs") || same(name, "min") || same(name, "max") {
        Some(math_fn(name, copy_values(args)))
    } else {
        None
    }
}

/// The text at an index of a method's arguments, or the error that there is none.
pub open spec fn text_argument(
    args: Seq<ValueView>,
    i: int,
    method: Seq<char>,
) -> Result<Seq<char>, Seq<char>> {
    match nth(args, i) {
        Some(ValueView::Str(s)) => Ok(s),
        _ => Err("`."@ + method + "()` argument must be a String"@),
    }
}

fn text_arg(args: &Vec<Value>, i: usize, method: &str) -> (r: Result<String, String>)
    ensures
        text_result(r) == text_argument(list_view(args@), i as int, method@),
{
    proof {
        lemma_values_view(args@, args@.len() as int);
    }
    if i < args.len() {
        proof {
            assert(list_view(args@)[i as int] == value_view(args@[i as int]));
        }
        if let Value::Str(s) = &args[i] {
            return Ok(s.clone());
        }
    }
    Err(cat3("`.", method, "()` argument must be a String"))
}

/// Texts as values.
pub open spec fn text_values(ts: Seq<Seq<char>>, n: int) -> Seq<ValueView>
    decreases n,
{
    if n <= 0 || n > ts.len() {
        Seq::empty()
    } else {
        text_values(ts, n - 1).push(ValueView::Str(ts[n - 1]))
    }
}

fn values_of(ts: &Parts) -> (r: Vec<Value>)
    ensures
        list_view(r@) == text_values(ts@, ts@.len() as int),
{
    let mut out: Vec<Value> = Vec::new();
    let mut i: usize = 0;
    while i < ts.len()
        invariant
            i <= ts@.len(),
            list_view(out@) == text_values(ts@, i as int),
        decreases ts@.len() - i,
    {
        push_value(&mut out, Value::Str(ts.get(i).clone()));
        i = i + 1;
    }
    out
}

/// What calling a method of a text does.
pub open spec fn text_method_called(
    s: Seq<char>,
    method: Seq<char>,
    args: Seq<ValueView>,
) -> PlanView {
    if method == "trim"@ {
        PlanView::Value(ValueView::Str(trim_text(s)))
    } else if method == "upper"@ {
        PlanView::Value(ValueView::Str(upper_text(s)))
    } else if method == "lower"@ {
        PlanView::Value(ValueView::Str(lower_text(s)))
    } else if method == "length"@ {
        PlanView::Value(ValueView::Int((s.len() as i64) as int))
    } else if method == "contains"@ {
        match text_argument(args, 0, method) {
            Err(m) => PlanView::Failed(m),
            Ok(p) => PlanView::Value(ValueView::Bool(find_from(s, p, 0) is Some)),
        }
    } else if method == "split"@ {
        match text_argument(args, 0, method) {
            Err(m) => PlanView::Failed(m),
            Ok(p) => {
                let parts = split_text(s, p);
                PlanView::Value(ValueView::List(text_values(parts, parts.len() as int)))
            },
        }
    } else if method == "replace"@ {
        match text_argument(args, 0, method) {
            Err(m) => PlanView::Failed(m),
            Ok(p) => match text_argument(args, 1, method) {
                Err(m) => PlanView::Failed(m),
                Ok(by) => PlanView::Value(ValueView::Str(replace_text(s, p, by))),
            },
        }
    } else {
        PlanView::Failed("unknown String method `"@ + method + "`"@)
    }
}

/// What calling a method of a text does.
pub fn string_method(s: &str, method: &str, args: &Vec<Value>) -> (r: Plan)
    ensures
        r@ == text_method_called(s@, method@, list_view(args@)),
{
    if same(method, "trim") {
        Plan::Value(Value::Str(trim(s)))
    } else if same(method, "upper") {
        Plan::Value(Value::Str(uppercase(s)))
    } else if same(method, "lower") {
        Plan::Value(Value::Str(lowercase(s)))
    } else if same(method, "length") {
        let n: usize = s.unicode_len();
        Plan::Value(Value::Int(n as i64))
    } else if same(method, "contains") {
        match text_arg(args, 0, method) {
            Err(m) => Plan::Failed(m),
            Ok(p) => {
                let b = chars_of(s);
                let q = chars_of(&p);
                Plan::Value(Value::Bool(find_chars(&b, &q, 0).is_some()))
            },
        }
    } else if same(method, "split") {
        match text_arg(args, 0, method) {
            Err(m) => Plan::Failed(m),
            Ok(p) => Plan::Value(Value::List(values_of(&split(s, &p)))),
        }
    } else if same(method, "replace") {
        match text_arg(args, 0, method) {
            Err(m) => Plan::Failed(m),
            Ok(p) => match text_arg(args, 1, method) {
                Err(m) => Plan::Failed(m),
                Ok(by) => Plan::Value(Value::Str(replace(s, &p, &by))),
            },
        }
    } else {
        Plan::Failed(cat3("unknown String method `", method, "`"))
    }
}

/// The last `n` values of a list, last first.
pub open spec fn backwards(vs: Seq<ValueView>, n: int) -> Seq<ValueView>
    decreases n,
{
    if n <= 0 || n > vs.len() {
        Seq::empty()
    } else {
        backwards(vs, n - 1).push(vs[vs.len() - n])
    }
}

fn reversed(vs: &Vec<Value>) -> (r: Vec<Value>)
    ensures
        list_view(r@) == backwards(list_view(vs@), vs@.len() as int),
{
    proof {
        lemma_values_view(vs@, vs@.len() as int);
    }
    let n: usize = vs.len();
    let mut out: Vec<Value> = Vec::new();
    let mut i: usize = 0;
    while i < n
        invariant
            i <= n,
            n == vs@.len(),
            list_view(vs@).len() == n,
            forall|j: int|
                0 <= j < vs@.len() ==> #[trigger] list_view(vs@)[j] == value_view(vs@[j]),
            list_view(out@) == backwards(list_view(vs@), i as int),
        decreases n - i,
    {
        let x = copy_value(&vs[n - 1 - i]);
        proof {
            assert(list_view(vs@)[n - 1 - i] == x@);
        }
        push_value(&mut out, x);
        i = i + 1;
    }
    out
}

/// What calling a method of a list does. What is not there is null.
pub open spec fn list_method_called(
    items: Seq<ValueView>,
    method: Seq<char>,
    args: Seq<ValueView>,
) -> PlanView {
    if method == "length"@ {
        PlanView::Value(ValueView::Int((items.len() as i64) as int))
    } else if method == "first"@ {
        PlanView::Value(nth_or_null(items, 0))
    } else if method == "last"@ {
        PlanView::Value(nth_or_null(items, items.len() - 1))
    } else if method == "at"@ {
        match nth(args, 0) {
            Some(ValueView::Int(i)) => PlanView::Value(nth_or_null(items, i)),
            _ => PlanView::Failed("`.at()` argument must be an Int"@),
        }
    } else if method == "reverse"@ {
        PlanView::Value(ValueView::List(backwards(items, items.len() as int)))
    } else {
        PlanView::Failed("unknown List method `"@ + method + "`"@)
    }
}

/// What calling a method of a list does.
pub fn list_method(items: &Vec<Value>, method: &str, args: &Vec<Value>) -> (r: Plan)
    ensures
        r@ == list_method_called(list_view(items@), method@, list_view(args@)),
{
    let n: usize = items.len();
    proof {
        lemma_values_view(items@, items@.len() as int);
        lemma_values_view(args@, args@.len() as int);
    }
    if same(method, "length") {
        Plan::Value(Value::Int(n as i64))
    } else if same(method, "first") {
        Plan::Value(at_or_null(items, 0))
    } else if same(method, "last") {
        if n == 0 {
            Plan::Value(Value::Null)
        } else {
            Plan::Value(at_or_null(items, n - 1))
        }
    } else if same(method, "at") {
        if args.len() > 0 {
            proof {
                assert(list_view(args@)[0] == value_view(args@[0]));
            }
            if let Value::Int(i) = &args[0] {
                return Plan::Value(at_index(items, *i));
            }
        }
        Plan::Failed("`.at()` argument must be an Int".to_owned())
    } else if same(method, "reverse") {
        Plan::Value(Value::List(reversed(items)))
    } else {
        Plan::Failed(cat3("unknown List method `", method, "`"))
    }
}

} // verus!
