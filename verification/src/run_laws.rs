//! What a run comes to: the operators mean what they say, and a body goes the way that its conditions
//! point.
use vstd::prelude::*;
use vstd::string::*;

use crate::arith::{divides_exactly, equal, equal_fields, equal_items, law_small_integers_are_exact, nearest};
use crate::ast::{BinOp, Expr, MatchArm, MatchPat, Param, Stmt, UnOp};
use crate::builtin::{
    any_equal, backwards, builtin_called, list_method_called, operated, text_method_called, PlanView,
};
use crate::interp::{
    block_at, bound_params, eval_at, field_index, field_of, filter_at, for_at, index_of,
    ints_from, is_variant_arm, map_at, range_of, reduce_at, stmt_at, variant_arm, while_at, wildcard_arm,
    closure_env, Env, FlowView, StopView, TrackView, World,
};
use crate::scan::{
    find_from, lemma_find_from, replace_from, split_from, split_text, trim_back, trim_front, trim_text,
};
use crate::sound_laws::lemma_math;
use crate::text::join_text;
use crate::unicode::char_is_space;
use crate::value::{display_text, ValueView};

verus! {

/// An operator between two expressions.
pub open spec fn between(op: BinOp, l: Expr, r: Expr) -> Expr {
    Expr::Binary { op, left: Box::new(l), right: Box::new(r) }
}

/// An operator before an expression.
pub open spec fn before(op: UnOp, e: Expr) -> Expr {
    Expr::Unary { op, expr: Box::new(e) }
}

/// What an expression comes to.
pub open spec fn comes_to(w: World, e: Expr, env: Env, at: TrackView, fuel: nat, v: ValueView) -> bool {
    eval_at(w, e, env, at, fuel).out == Ok::<ValueView, StopView>(v)
}

/// The boolean operators obey their truth tables.
pub proof fn law_boolean_operators(
    w: World,
    l: Expr,
    r: Expr,
    env: Env,
    at: TrackView,
    fuel: nat,
    a: bool,
    b: bool,
)
    requires
        comes_to(w, l, env, at, fuel, ValueView::Bool(a)),
        comes_to(w, r, env, eval_at(w, l, env, at, fuel).at, fuel, ValueView::Bool(b)),
    ensures
        comes_to(w, between(BinOp::And, l, r), env, at, fuel, ValueView::Bool(true)) <==> a && b,
        comes_to(w, between(BinOp::And, l, r), env, at, fuel, ValueView::Bool(false)) <==> !(a && b),
        comes_to(w, between(BinOp::Or, l, r), env, at, fuel, ValueView::Bool(true)) <==> a || b,
        comes_to(w, between(BinOp::Or, l, r), env, at, fuel, ValueView::Bool(false)) <==> !a && !b,
        comes_to(w, before(UnOp::Not, l), env, at, fuel, ValueView::Bool(true)) <==> !a,
        comes_to(w, before(UnOp::Not, l), env, at, fuel, ValueView::Bool(false)) <==> a,
        eval_at(w, before(UnOp::Not, between(BinOp::And, l, r)), env, at, fuel) == eval_at(
            w,
            between(BinOp::Or, before(UnOp::Not, l), before(UnOp::Not, r)),
            env,
            at,
            fuel,
        ),
        eval_at(w, before(UnOp::Not, between(BinOp::Or, l, r)), env, at, fuel) == eval_at(
            w,
            between(BinOp::And, before(UnOp::Not, l), before(UnOp::Not, r)),
            env,
            at,
            fuel,
        ),
        eval_at(w, before(UnOp::Not, before(UnOp::Not, l)), env, at, fuel) == eval_at(
            w,
            l,
            env,
            at,
            fuel,
        ),
{
    let mid = eval_at(w, l, env, at, fuel).at;
    let x = eval_at(w, between(BinOp::And, l, r), env, at, fuel);
    let y = eval_at(w, between(BinOp::Or, l, r), env, at, fuel);
    let m = eval_at(w, before(UnOp::Not, l), env, at, fuel);
    let n = eval_at(w, before(UnOp::Not, r), env, mid, fuel);
    assert(x.out == Ok::<ValueView, StopView>(ValueView::Bool(a && b)));
    assert(y.out == Ok::<ValueView, StopView>(ValueView::Bool(a || b)));
    assert(m.out == Ok::<ValueView, StopView>(ValueView::Bool(!a)) && m.at == mid);
    assert(n.out == Ok::<ValueView, StopView>(ValueView::Bool(!b)));
}

/// A boolean operator takes booleans only.
pub proof fn law_boolean_operators_take_booleans(op: BinOp, l: ValueView, r: ValueView)
    requires
        op == BinOp::And || op == BinOp::Or,
        !(l is Bool) || !(r is Bool),
    ensures
        operated(op, l, r) is Failed,
{
}

/// An operator is applied to what its left operand comes to and then to what its right one does, in this
/// order, and a failure of either is the failure of the whole.
pub proof fn law_operands_keep_their_order(
    w: World,
    op: BinOp,
    l: Expr,
    r: Expr,
    env: Env,
    at: TrackView,
    fuel: nat,
)
    ensures
        ({
            let x = eval_at(w, l, env, at, fuel);
            let y = eval_at(w, r, env, x.at, fuel);
            let z = eval_at(w, between(op, l, r), env, at, fuel);
            &&& x.out is Err ==> z.out == x.out && z.at == x.at
            &&& x.out is Ok && y.out is Err ==> z.out == y.out && z.at == y.at
            &&& x.out is Ok && y.out is Ok ==> match operated(op, x.out->Ok_0, y.out->Ok_0) {
                PlanView::Value(v) => z.out == Ok::<ValueView, StopView>(v) && z.at == y.at,
                PlanView::Failed(m) => z.out == Err::<ValueView, StopView>(StopView::Failed(m)),
                PlanView::Overflow => z.out == Err::<ValueView, StopView>(StopView::Overflow),
                PlanView::Ask(_) => true,
            }
        }),
{
}

/// Integers: a sum is the sum where it fits and an overflow where it does not; differences, products and
/// quotients are exact as long as they and their operands have at most 53 binary digits, and a quotient
/// goes toward zero.
pub proof fn law_integer_arithmetic(a: int, b: int)
    requires
        i64::MIN <= a <= i64::MAX,
        i64::MIN <= b <= i64::MAX,
    ensures
        operated(BinOp::Add, ValueView::Int(a), ValueView::Int(b)) matches PlanView::Value(v) ==> v
            == ValueView::Int(a + b),
        operated(BinOp::Add, ValueView::Int(a), ValueView::Int(b)) is Value <==> i64::MIN <= a + b
            <= i64::MAX,
        operated(BinOp::Add, ValueView::Int(a), ValueView::Int(b)) is Overflow <==> !(i64::MIN <= a + b
            <= i64::MAX),
        divides_exactly(a, b) && divides_exactly(a - b, b) ==> operated(
            BinOp::Sub,
            ValueView::Int(a),
            ValueView::Int(b),
        ) == PlanView::Value(ValueView::Int(a - b)),
        divides_exactly(a, b) && divides_exactly(a * b, b) ==> operated(
            BinOp::Mul,
            ValueView::Int(a),
            ValueView::Int(b),
        ) == PlanView::Value(ValueView::Int(a * b)),
        operated(BinOp::Sub, ValueView::Int(a), ValueView::Int(b)) is Value,
        operated(BinOp::Mul, ValueView::Int(a), ValueView::Int(b)) is Value,
        operated(BinOp::Mul, ValueView::Int(a), ValueView::Int(b)) == operated(
            BinOp::Mul,
            ValueView::Int(b),
            ValueView::Int(a),
        ),
        -0x20_0000_0000_0000 <= a <= 0x20_0000_0000_0000 && -0x20_0000_0000_0000 <= b
            <= 0x20_0000_0000_0000 && b != 0 ==> {
            let q = operated(BinOp::Div, ValueView::Int(a), ValueView::Int(b));
            &&& q is Value
            &&& q->Value_0 is Int
            &&& is_quotient(a, b, q->Value_0->Int_0)
        },
{
    assert(nearest(a) * nearest(b) == nearest(b) * nearest(a)) by (nonlinear_arith);
    if divides_exactly(a, b) {
        law_small_integers_are_exact(a);
        law_small_integers_are_exact(b);
        if divides_exactly(a - b, b) {
            law_small_integers_are_exact(a - b);
        }
        if divides_exactly(a * b, b) {
            law_small_integers_are_exact(a * b);
        }
        if b != 0 {
            lemma_quotient(a, b);
        }
    }
}

/// Whether an integer is the quotient of two toward zero: what is left has the sign of the dividend and is
/// smaller than the divisor.
pub open spec fn is_quotient(a: int, b: int, q: int) -> bool {
    let r = a - q * b;
    &&& (a >= 0 ==> 0 <= r)
    &&& (a <= 0 ==> r <= 0)
    &&& (b > 0 ==> -b < r < b)
    &&& (b < 0 ==> b < r < -b)
}

proof fn lemma_quotient(a: int, b: int)
    requires
        b != 0,
    ensures
        is_quotient(a, b, crate::arith::int_over(a, b)),
{
    let m = if a < 0 {
        -a
    } else {
        a
    };
    let n = if b < 0 {
        -b
    } else {
        b
    };
    let k = m / n;
    assert(0 <= m - k * n < n) by (nonlinear_arith)
        requires
            k == m / n,
            n > 0,
    ;
    assert((-k) * b == -(k * b)) by (nonlinear_arith);
    assert(k * (-n) == -(k * n)) by (nonlinear_arith);
}

/// A quotient by zero is as far out as integers go, with the sign of the dividend.
pub proof fn law_quotient_by_zero(a: int)
    requires
        -0x20_0000_0000_0000 <= a <= 0x20_0000_0000_0000,
    ensures
        operated(BinOp::Div, ValueView::Int(a), ValueView::Int(0)) == PlanView::Value(
            ValueView::Int(
                if a == 0 {
                    0
                } else if a > 0 {
                    i64::MAX as int
                } else {
                    i64::MIN as int
                },
            ),
        ),
{
}

/// The truth that a comparison of two integers comes to.
pub open spec fn holds(op: BinOp, a: int, b: int) -> bool {
    operated(op, ValueView::Int(a), ValueView::Int(b)) == PlanView::Value(ValueView::Bool(true))
}

/// The four orders of integers agree with each other, of integers with at most 53 binary digits they are
/// the orders of numbers, and the order of two others is never turned round.
pub proof fn law_integers_are_ordered(a: int, b: int)
    requires
        i64::MIN <= a <= i64::MAX,
        i64::MIN <= b <= i64::MAX,
    ensures
        holds(BinOp::Lt, a, b) <==> holds(BinOp::Gt, b, a),
        holds(BinOp::LtEq, a, b) <==> holds(BinOp::GtEq, b, a),
        holds(BinOp::LtEq, a, b) <==> !holds(BinOp::Gt, a, b),
        holds(BinOp::GtEq, a, b) <==> !holds(BinOp::Lt, a, b),
        !holds(BinOp::Lt, a, a),
        divides_exactly(a, b) ==> (holds(BinOp::Lt, a, b) <==> a < b),
        divides_exactly(a, b) ==> (holds(BinOp::Gt, a, b) <==> a > b),
        divides_exactly(a, b) ==> (holds(BinOp::LtEq, a, b) <==> a <= b),
        divides_exactly(a, b) ==> (holds(BinOp::GtEq, a, b) <==> a >= b),
        operated(BinOp::Lt, ValueView::Int(a), ValueView::Int(b)) is Value,
        operated(BinOp::Gt, ValueView::Int(a), ValueView::Int(b)) is Value,
        operated(BinOp::LtEq, ValueView::Int(a), ValueView::Int(b)) is Value,
        operated(BinOp::GtEq, ValueView::Int(a), ValueView::Int(b)) is Value,
        operated(BinOp::Lt, ValueView::Int(a), ValueView::Int(b))->Value_0 is Bool,
        operated(BinOp::Gt, ValueView::Int(a), ValueView::Int(b))->Value_0 is Bool,
        operated(BinOp::LtEq, ValueView::Int(a), ValueView::Int(b))->Value_0 is Bool,
        operated(BinOp::GtEq, ValueView::Int(a), ValueView::Int(b))->Value_0 is Bool,
{
    if divides_exactly(a, b) {
        law_small_integers_are_exact(a);
        law_small_integers_are_exact(b);
    }
}

/// What is no number is neither subtracted, multiplied, divided nor ordered.
pub proof fn law_arithmetic_takes_numbers(op: BinOp, l: ValueView, r: ValueView)
    requires
        op != BinOp::Eq && op != BinOp::NotEq && op != BinOp::And && op != BinOp::Or,
        !(l is Int || l is Float) || !(r is Int || r is Float),
        op == BinOp::Add ==> !(l is Str) && !(r is Str),
    ensures
        operated(op, l, r) is Failed,
{
}

/// `+` with a text on either side joins the two: the left one's text, then the right one's.
pub proof fn law_plus_joins_texts(s: Seq<char>, v: ValueView)
    ensures
        operated(BinOp::Add, ValueView::Str(s), v) == PlanView::Value(
            ValueView::Str(s + display_text(v)),
        ),
        operated(BinOp::Add, v, ValueView::Str(s)) == PlanView::Value(
            ValueView::Str(display_text(v) + s),
        ),
        builtin_called("__str_concat"@, seq![ValueView::Str(s), v]) == Some(
            operated(BinOp::Add, ValueView::Str(s), v),
        ),
        builtin_called("__str_concat"@, seq![v, ValueView::Str(s)]) == Some(
            operated(BinOp::Add, v, ValueView::Str(s)),
        ),
        display_text(ValueView::Str(s)) == s,
        display_text(ValueView::Bool(true)) == "true"@,
        display_text(ValueView::Bool(false)) == "false"@,
{
    lemma_concat_is_builtin();
    let x = seq![ValueView::Str(s), v];
    let y = seq![v, ValueView::Str(s)];
    assert(x.len() == 2 && y.len() == 2);
    assert(x[0] == ValueView::Str(s) && x[1] == v && y[0] == v && y[1] == ValueView::Str(s));
}

proof fn lemma_concat_is_builtin()
    ensures
        "__str_concat"@ != "uid"@,
        "__str_concat"@ != "hash"@,
        "__str_concat"@ != "verify"@,
        "__str_concat"@ != "now"@,
        "__str_concat"@ != "decimal"@,
        "__str_concat"@ != "__list_contains"@,
        !crate::text::has_prefix("__str_concat"@, "__dec_"@),
{
    reveal_strlit("__str_concat");
    reveal_strlit("uid");
    reveal_strlit("hash");
    reveal_strlit("verify");
    reveal_strlit("now");
    reveal_strlit("decimal");
    reveal_strlit("__list_contains");
    reveal_strlit("__dec_");
    assert("__str_concat"@.len() == 12);
    assert("__list_contains"@.len() == 15);
    let a = "__str_concat"@;
    let b = "__dec_"@;
    assert(a[2] == 's' && b[2] == 'd');
}

/// Equality of what is no fraction: every value is equal to itself, two are equal in either order, and
/// `!=` is the opposite of `==`.
pub proof fn law_equality(l: ValueView, r: ValueView)
    ensures
        operated(BinOp::Eq, l, r) is Value,
        operated(BinOp::Eq, l, r)->Value_0 is Bool,
        operated(BinOp::NotEq, l, r) == PlanView::Value(
            ValueView::Bool(!operated(BinOp::Eq, l, r)->Value_0->Bool_0),
        ),
        operated(BinOp::Eq, l, r) == operated(BinOp::Eq, r, l),
        holds_no_fraction(l) ==> operated(BinOp::Eq, l, l) == PlanView::Value(ValueView::Bool(true)),
        holds_no_fraction(l) && holds_no_fraction(r) && operated(BinOp::Eq, l, r) == PlanView::Value(
            ValueView::Bool(true),
        ) ==> l == r,
{
    lemma_equal_symmetric(l, r);
    if holds_no_fraction(l) {
        lemma_equal_reflexive(l);
        if holds_no_fraction(r) && equal(l, r) {
            lemma_equal_is_same(l, r);
        }
    }
}

/// Whether no fraction stands in a value.
pub open spec fn holds_no_fraction(v: ValueView) -> bool
    decreases v,
{
    match v {
        ValueView::Float(_) => false,
        ValueView::List(items) => forall|i: int|
            0 <= i < items.len() ==> holds_no_fraction(#[trigger] items[i]),
        ValueView::Record(_, fs) => forall|i: int|
            0 <= i < fs.len() ==> holds_no_fraction((#[trigger] fs[i]).1),
        _ => true,
    }
}

proof fn lemma_equal_symmetric(l: ValueView, r: ValueView)
    ensures
        equal(l, r) == equal(r, l),
    decreases l, 0int,
{
    reveal_strlit("NaN");
    reveal_strlit("0");
    reveal_strlit("-0");
    assert("NaN"@.len() == 3 && "0"@.len() == 1 && "-0"@.len() == 2);
    match (l, r) {
        (ValueView::Float(f), ValueView::Float(g)) => {
            assert(crate::arith::same_number(f, g) == crate::arith::same_number(g, f));
        },
        (ValueView::List(a), ValueView::List(b)) => {
            if a.len() == b.len() {
                lemma_items_symmetric(a, b, a.len() as int);
            }
        },
        (ValueView::Record(_, a), ValueView::Record(_, b)) => {
            if a.len() == b.len() {
                lemma_fields_symmetric(a, b, a.len() as int);
            }
        },
        _ => {},
    }
}

proof fn lemma_items_symmetric(a: Seq<ValueView>, b: Seq<ValueView>, n: int)
    requires
        a.len() == b.len(),
    ensures
        equal_items(a, b, n) == equal_items(b, a, n),
    decreases a, n,
{
    if 0 < n <= a.len() {
        lemma_items_symmetric(a, b, n - 1);
        lemma_equal_symmetric(a[n - 1], b[n - 1]);
    }
}

proof fn lemma_fields_symmetric(
    a: Seq<(Seq<char>, ValueView)>,
    b: Seq<(Seq<char>, ValueView)>,
    n: int,
)
    requires
        a.len() == b.len(),
    ensures
        equal_fields(a, b, n) == equal_fields(b, a, n),
    decreases a, n,
{
    if 0 < n <= a.len() {
        lemma_fields_symmetric(a, b, n - 1);
        assert(decreases_to!(a => a[n - 1]));
        lemma_equal_symmetric(a[n - 1].1, b[n - 1].1);
    }
}

proof fn lemma_equal_reflexive(v: ValueView)
    requires
        holds_no_fraction(v),
    ensures
        equal(v, v),
    decreases v, 0int,
{
    match v {
        ValueView::List(items) => lemma_items_reflexive(items, items.len() as int),
        ValueView::Record(_, fs) => lemma_fields_reflexive(fs, fs.len() as int),
        _ => {},
    }
}

proof fn lemma_items_reflexive(a: Seq<ValueView>, n: int)
    requires
        forall|i: int| 0 <= i < a.len() ==> holds_no_fraction(#[trigger] a[i]),
    ensures
        equal_items(a, a, n),
    decreases a, n,
{
    if 0 < n <= a.len() {
        lemma_items_reflexive(a, n - 1);
        lemma_equal_reflexive(a[n - 1]);
    }
}

proof fn lemma_fields_reflexive(a: Seq<(Seq<char>, ValueView)>, n: int)
    requires
        forall|i: int| 0 <= i < a.len() ==> holds_no_fraction((#[trigger] a[i]).1),
    ensures
        equal_fields(a, a, n),
    decreases a, n,
{
    if 0 < n <= a.len() {
        lemma_fields_reflexive(a, n - 1);
        assert(decreases_to!(a => a[n - 1]));
        lemma_equal_reflexive(a[n - 1].1);
    }
}

proof fn lemma_equal_is_same(l: ValueView, r: ValueView)
    requires
        holds_no_fraction(l),
        holds_no_fraction(r),
        equal(l, r),
    ensures
        l == r,
    decreases l, 0int,
{
    match (l, r) {
        (ValueView::List(a), ValueView::List(b)) => {
            lemma_items_same(a, b, a.len() as int);
            assert(a =~= b);
        },
        (ValueView::Record(_, a), ValueView::Record(_, b)) => {
            lemma_fields_same(a, b, a.len() as int);
            assert(a =~= b);
        },
        _ => {},
    }
}

proof fn lemma_items_same(a: Seq<ValueView>, b: Seq<ValueView>, n: int)
    requires
        a.len() == b.len(),
        n <= a.len(),
        forall|i: int| 0 <= i < a.len() ==> holds_no_fraction(#[trigger] a[i]),
        forall|i: int| 0 <= i < b.len() ==> holds_no_fraction(#[trigger] b[i]),
        equal_items(a, b, n),
    ensures
        forall|i: int| 0 <= i < n ==> a[i] == b[i],
    decreases a, n,
{
    if 0 < n {
        lemma_items_same(a, b, n - 1);
        lemma_equal_is_same(a[n - 1], b[n - 1]);
    }
}

proof fn lemma_fields_same(a: Seq<(Seq<char>, ValueView)>, b: Seq<(Seq<char>, ValueView)>, n: int)
    requires
        a.len() == b.len(),
        n <= a.len(),
        forall|i: int| 0 <= i < a.len() ==> holds_no_fraction((#[trigger] a[i]).1),
        forall|i: int| 0 <= i < b.len() ==> holds_no_fraction((#[trigger] b[i]).1),
        equal_fields(a, b, n),
    ensures
        forall|i: int| 0 <= i < n ==> a[i] == b[i],
    decreases a, n,
{
    if 0 < n {
        lemma_fields_same(a, b, n - 1);
        assert(decreases_to!(a => a[n - 1]));
        lemma_equal_is_same(a[n - 1].1, b[n - 1].1);
    }
}

/// A negated integer is the one that makes zero of it, and is negated back.
pub proof fn law_negation(n: int)
    requires
        i64::MIN < n <= i64::MAX,
    ensures
        ({
            let m = crate::interp::unary_of(UnOp::Neg, ValueView::Int(n));
            &&& m is Value
            &&& m->Value_0 is Int
            &&& m->Value_0->Int_0 + n == 0
            &&& crate::interp::unary_of(UnOp::Neg, m->Value_0) == PlanView::Value(ValueView::Int(n))
        }),
        crate::interp::unary_of(UnOp::Neg, ValueView::Int(i64::MIN as int)) is Overflow,
{
}

/// What a choice between two expressions comes to: the first where the condition holds, else the other.
pub proof fn law_ternary_takes_its_branch(
    w: World,
    cond: Expr,
    yes: Expr,
    otherwise: Expr,
    env: Env,
    at: TrackView,
    fuel: nat,
    b: bool,
)
    requires
        comes_to(w, cond, env, at, fuel, ValueView::Bool(b)),
    ensures
        eval_at(
            w,
            Expr::Ternary {
                cond: Box::new(cond),
                yes: Box::new(yes),
                otherwise: Box::new(otherwise),
            },
            env,
            at,
            fuel,
        ) == eval_at(
            w,
            if b {
                yes
            } else {
                otherwise
            },
            env,
            eval_at(w, cond, env, at, fuel).at,
            fuel,
        ),
{
}

/// A range holds its start and every integer behind it below its end, in order.
pub proof fn law_range_counts_up(s: int, e: int)
    ensures
        range_of(s, e) is List,
        ({
            let items = range_of(s, e)->List_0;
            &&& items.len() == if s <= e {
                e - s
            } else {
                0
            }
            &&& forall|k: int| 0 <= k < items.len() ==> #[trigger] items[k] == ValueView::Int(s + k)
        }),
{
    lemma_ints_from(s, e - s);
}

proof fn lemma_ints_from(s: int, n: int)
    ensures
        ints_from(s, n).len() == if n > 0 {
            n
        } else {
            0
        },
        forall|k: int| 0 <= k < ints_from(s, n).len() ==> #[trigger] ints_from(s, n)[k]
            == ValueView::Int(s + k),
    decreases n,
{
    if n > 0 {
        lemma_ints_from(s, n - 1);
    }
}

/// An index of a list gives what stands there, and null outside the list; so does `at`, while `first` and
/// `last` give what stands at its ends.
pub proof fn law_lists_are_read_by_index(items: Seq<ValueView>, n: int)
    ensures
        0 <= n < items.len() ==> index_of(ValueView::List(items), ValueView::Int(n)) == PlanView::Value(
            items[n],
        ),
        !(0 <= n < items.len()) ==> index_of(ValueView::List(items), ValueView::Int(n))
            == PlanView::Value(ValueView::Null),
        list_method_called(items, "at"@, seq![ValueView::Int(n)]) == index_of(
            ValueView::List(items),
            ValueView::Int(n),
        ),
        list_method_called(items, "first"@, seq![]) == index_of(
            ValueView::List(items),
            ValueView::Int(0),
        ),
        list_method_called(items, "last"@, seq![]) == index_of(
            ValueView::List(items),
            ValueView::Int(items.len() - 1),
        ),
        items.len() <= i64::MAX ==> list_method_called(items, "length"@, seq![]) == PlanView::Value(
            ValueView::Int(items.len() as int),
        ),
{
    lemma_list_words();
    let one = seq![ValueView::Int(n)];
    assert(one.len() == 1 && one[0] == ValueView::Int(n));
}

proof fn lemma_list_words()
    ensures
        "at"@ != "length"@,
        "at"@ != "first"@,
        "at"@ != "last"@,
        "first"@ != "length"@,
        "last"@ != "length"@,
        "last"@ != "first"@,
        "reverse"@ != "length"@,
        "reverse"@ != "first"@,
        "reverse"@ != "last"@,
        "reverse"@ != "at"@,
{
    reveal_strlit("at");
    reveal_strlit("length");
    reveal_strlit("first");
    reveal_strlit("last");
    reveal_strlit("reverse");
    assert("at"@.len() == 2 && "length"@.len() == 6 && "first"@.len() == 5 && "last"@.len() == 4
        && "reverse"@.len() == 7);
}

/// `reverse` gives the same items from the last to the first.
pub proof fn law_reverse_turns_a_list_round(items: Seq<ValueView>)
    ensures
        list_method_called(items, "reverse"@, seq![]) == PlanView::Value(
            ValueView::List(items.reverse()),
        ),
{
    lemma_list_words();
    lemma_backwards(items, items.len() as int);
    assert(backwards(items, items.len() as int) =~= items.reverse());
}

proof fn lemma_backwards(vs: Seq<ValueView>, n: int)
    requires
        0 <= n <= vs.len(),
    ensures
        backwards(vs, n).len() == n,
        forall|k: int| 0 <= k < n ==> #[trigger] backwards(vs, n)[k] == vs[vs.len() - 1 - k],
    decreases n,
{
    if n > 0 {
        lemma_backwards(vs, n - 1);
    }
}

proof fn lemma_any_equal(vs: Seq<ValueView>, n: int, needle: ValueView)
    requires
        n <= vs.len(),
    ensures
        any_equal(vs, n, needle) <==> exists|i: int| 0 <= i < n && equal(#[trigger] vs[i], needle),
    decreases n,
{
    if n > 0 {
        lemma_any_equal(vs, n - 1, needle);
        if exists|i: int| 0 <= i < n && equal(#[trigger] vs[i], needle) {
            let i = choose|i: int| 0 <= i < n && equal(#[trigger] vs[i], needle);
            assert(i < n - 1 || i == n - 1);
        }
    }
}

/// A list contains a value exactly where one of its items is equal to it.
pub proof fn law_list_contains_its_items(items: Seq<ValueView>, v: ValueView)
    ensures
        builtin_called("__list_contains"@, seq![ValueView::List(items), v]) == Some(
            PlanView::Value(
                ValueView::Bool(
                    exists|i: int|
                        0 <= i < items.len() && operated(BinOp::Eq, #[trigger] items[i], v)
                            == PlanView::Value(ValueView::Bool(true)),
                ),
            ),
        ),
{
    reveal_strlit("uid");
    reveal_strlit("hash");
    reveal_strlit("verify");
    reveal_strlit("now");
    reveal_strlit("decimal");
    reveal_strlit("__list_contains");
    reveal_strlit("__dec_");
    let a = "__list_contains"@;
    let b = "__dec_"@;
    assert(a.len() == 15 && a[2] == 'l' && b[2] == 'd');
    let args = seq![ValueView::List(items), v];
    assert(args.len() == 2 && args[0] == ValueView::List(items) && args[1] == v);
    lemma_any_equal(items, items.len() as int, v);
    assert forall|i: int| 0 <= i < items.len() implies (equal(#[trigger] items[i], v) <==> operated(
        BinOp::Eq,
        items[i],
        v,
    ) == PlanView::Value(ValueView::Bool(true))) by {}
}

/// Whether a text occurs in another.
pub open spec fn occurs(p: Seq<char>, s: Seq<char>) -> bool {
    exists|i: int| 0 <= i && i + p.len() <= s.len() && #[trigger] s.subrange(i, i + p.len()) == p
}

proof fn lemma_found(s: Seq<char>, p: Seq<char>, i: int, k: int)
    requires
        0 <= i <= k,
        k + p.len() <= s.len(),
        s.subrange(k, k + p.len()) == p,
    ensures
        find_from(s, p, i) is Some,
        find_from(s, p, i)->0 <= k,
    decreases k - i,
{
    if s.subrange(i, i + p.len()) != p {
        lemma_found(s, p, i + 1, k);
    }
}

proof fn lemma_text_words()
    ensures
        "contains"@ != "trim"@,
        "contains"@ != "upper"@,
        "contains"@ != "lower"@,
        "contains"@ != "length"@,
        "split"@ != "trim"@,
        "split"@ != "upper"@,
        "split"@ != "lower"@,
        "split"@ != "length"@,
        "split"@ != "contains"@,
        "replace"@ != "trim"@,
        "replace"@ != "upper"@,
        "replace"@ != "lower"@,
        "replace"@ != "length"@,
        "replace"@ != "contains"@,
        "replace"@ != "split"@,
        "length"@ != "trim"@,
        "length"@ != "upper"@,
        "length"@ != "lower"@,
{
    reveal_strlit("contains");
    reveal_strlit("trim");
    reveal_strlit("upper");
    reveal_strlit("lower");
    reveal_strlit("length");
    reveal_strlit("split");
    reveal_strlit("replace");
    assert("contains"@.len() == 8 && "trim"@.len() == 4 && "length"@.len() == 6 && "replace"@.len() == 7
        && "upper"@.len() == 5 && "lower"@.len() == 5 && "split"@.len() == 5);
    assert("split"@[0] == 's' && "upper"@[0] == 'u' && "lower"@[0] == 'l');
}

/// A text contains another exactly where the other occurs in it, and its length is that of its
/// characters.
pub proof fn law_text_contains_what_occurs(s: Seq<char>, p: Seq<char>)
    ensures
        text_method_called(s, "contains"@, seq![ValueView::Str(p)]) == PlanView::Value(
            ValueView::Bool(occurs(p, s)),
        ),
        s.len() <= i64::MAX ==> text_method_called(s, "length"@, seq![]) == PlanView::Value(
            ValueView::Int(s.len() as int),
        ),
{
    lemma_text_words();
    let args = seq![ValueView::Str(p)];
    assert(args.len() == 1 && args[0] == ValueView::Str(p));
    lemma_find_from(s, p, 0);
    if occurs(p, s) {
        let k = choose|i: int| 0 <= i && i + p.len() <= s.len() && #[trigger] s.subrange(i, i + p.len()) == p;
        lemma_found(s, p, 0, k);
    }
}

pub proof fn lemma_join_one(t: Seq<char>, rest: Seq<Seq<char>>, by: Seq<char>)
    requires
        rest.len() > 0,
    ensures
        join_text(seq![t] + rest, by) == t + by + join_text(rest, by),
    decreases rest.len(),
{
    let all = seq![t] + rest;
    if rest.len() == 1 {
        assert(all.drop_last() =~= seq![t]);
        assert(seq![t].drop_last() =~= Seq::<Seq<char>>::empty());
        assert(rest.drop_last() =~= Seq::<Seq<char>>::empty());
        assert(join_text(seq![t], by) =~= t);
        assert(join_text(rest, by) =~= rest[0]);
        assert(join_text(all, by) =~= t + by + rest[0]);
    } else {
        lemma_join_one(t, rest.drop_last(), by);
        assert(all.drop_last() =~= seq![t] + rest.drop_last());
        assert(join_text(all, by) =~= join_text(all.drop_last(), by) + by + rest.last());
        assert(join_text(rest, by) =~= join_text(rest.drop_last(), by) + by + rest.last());
        assert(join_text(all, by) =~= t + by + join_text(rest, by));
    }
}

proof fn lemma_split_joins(s: Seq<char>, p: Seq<char>, by: Seq<char>, i: int)
    requires
        p.len() > 0,
        0 <= i <= s.len(),
    ensures
        split_from(s, p, i).len() > 0,
        join_text(split_from(s, p, i), p) == s.subrange(i, s.len() as int),
        join_text(split_from(s, p, i), by) == replace_from(s, p, by, i),
        forall|j: int| 0 <= j < split_from(s, p, i).len() ==> !occurs(p, #[trigger] split_from(s, p, i)[j]),
    decreases s.len() - i,
{
    lemma_find_from(s, p, i);
    match find_from(s, p, i) {
        None => {
            let rest = s.subrange(i, s.len() as int);
            assert(seq![rest].drop_last() =~= Seq::<Seq<char>>::empty());
            assert(join_text(seq![rest], p) =~= rest);
            assert(join_text(seq![rest], by) =~= rest);
            if occurs(p, rest) {
                let k = choose|k: int|
                    0 <= k && k + p.len() <= rest.len() && #[trigger] rest.subrange(k, k + p.len()) == p;
                assert(s.subrange(i + k, i + k + p.len()) =~= rest.subrange(k, k + p.len()));
                lemma_found(s, p, i, i + k);
            }
        },
        Some(k) => {
            let head = s.subrange(i, k);
            lemma_split_joins(s, p, by, k + p.len());
            let rest = split_from(s, p, k + p.len());
            lemma_join_one(head, rest, p);
            lemma_join_one(head, rest, by);
            assert(s.subrange(i, s.len() as int) =~= head + p + s.subrange(
                k + p.len(),
                s.len() as int,
            )) by {
                assert(s.subrange(k, k + p.len()) == p);
            }
            if occurs(p, head) {
                let j = choose|j: int|
                    0 <= j && j + p.len() <= head.len() && #[trigger] head.subrange(j, j + p.len()) == p;
                assert(s.subrange(i + j, i + j + p.len()) =~= head.subrange(j, j + p.len()));
                lemma_found(s, p, i, i + j);
            }
            assert forall|j: int| 0 <= j < split_from(s, p, i).len() implies !occurs(
                p,
                #[trigger] split_from(s, p, i)[j],
            ) by {
                if j > 0 {
                    assert(split_from(s, p, i)[j] == rest[j - 1]);
                }
            }
        },
    }
}

/// `split` cuts a text at each occurrence of another: the pieces joined by it are the text again, and
/// none of them holds it. `replace` joins the same pieces by something else.
pub proof fn law_split_and_replace(s: Seq<char>, p: Seq<char>, by: Seq<char>)
    requires
        p.len() > 0,
    ensures
        text_method_called(s, "replace"@, seq![ValueView::Str(p), ValueView::Str(by)])
            == PlanView::Value(ValueView::Str(join_text(split_text(s, p), by))),
        text_method_called(s, "split"@, seq![ValueView::Str(p)]) is Value,
        text_method_called(s, "split"@, seq![ValueView::Str(p)])->Value_0 is List,
        ({
            let pieces = text_method_called(s, "split"@, seq![ValueView::Str(p)])->Value_0->List_0;
            &&& pieces.len() == split_text(s, p).len()
            &&& forall|j: int|
                0 <= j < pieces.len() ==> #[trigger] pieces[j] == ValueView::Str(split_text(s, p)[j])
        }),
        join_text(split_text(s, p), p) == s,
        forall|j: int| 0 <= j < split_text(s, p).len() ==> !occurs(p, #[trigger] split_text(s, p)[j]),
{
    lemma_text_words();
    lemma_split_joins(s, p, by, 0);
    assert(s.subrange(0, s.len() as int) =~= s);
    let one = seq![ValueView::Str(p)];
    let two = seq![ValueView::Str(p), ValueView::Str(by)];
    assert(one.len() == 1 && one[0] == ValueView::Str(p));
    assert(two.len() == 2 && two[0] == ValueView::Str(p) && two[1] == ValueView::Str(by));
    let parts = split_text(s, p);
    lemma_text_values(parts, parts.len() as int);
}

proof fn lemma_text_values(ts: Seq<Seq<char>>, n: int)
    requires
        0 <= n <= ts.len(),
    ensures
        crate::builtin::text_values(ts, n).len() == n,
        forall|j: int| 0 <= j < n ==> #[trigger] crate::builtin::text_values(ts, n)[j] == ValueView::Str(ts[j]),
    decreases n,
{
    if n > 0 {
        lemma_text_values(ts, n - 1);
    }
}

proof fn lemma_trim_front(s: Seq<char>) -> (k: int)
    ensures
        0 <= k <= s.len(),
        trim_front(s) == s.subrange(k, s.len() as int),
        forall|j: int| 0 <= j < k ==> char_is_space(#[trigger] s[j]),
        k < s.len() ==> !char_is_space(s[k]),
    decreases s.len(),
{
    if s.len() > 0 && char_is_space(s[0]) {
        let t = s.subrange(1, s.len() as int);
        let k = lemma_trim_front(t);
        assert(t.subrange(k, t.len() as int) =~= s.subrange(k + 1, s.len() as int));
        assert forall|j: int| 0 <= j < k + 1 implies char_is_space(#[trigger] s[j]) by {
            if j > 0 {
                assert(t[j - 1] == s[j]);
            }
        }
        k + 1
    } else {
        assert(s.subrange(0, s.len() as int) =~= s);
        0
    }
}

proof fn lemma_trim_back(s: Seq<char>) -> (k: int)
    ensures
        0 <= k <= s.len(),
        trim_back(s) == s.subrange(0, k),
        forall|j: int| k <= j < s.len() ==> char_is_space(#[trigger] s[j]),
        k > 0 ==> !char_is_space(s[k - 1]),
    decreases s.len(),
{
    if s.len() > 0 && char_is_space(s.last()) {
        let t = s.drop_last();
        let k = lemma_trim_back(t);
        assert(t.subrange(0, k) =~= s.subrange(0, k));
        assert forall|j: int| k <= j < s.len() implies char_is_space(#[trigger] s[j]) by {
            if j < t.len() {
                assert(t[j] == s[j]);
            }
        }
        k
    } else {
        assert(s.subrange(0, s.len() as int) =~= s);
        s.len() as int
    }
}

/// `trim` takes white space off both ends of a text, all of it and nothing else.
pub proof fn law_trim_takes_the_white_space_off(s: Seq<char>)
    ensures
        exists|i: int, j: int|
            0 <= i <= j <= s.len() && text_method_called(s, "trim"@, seq![]) == PlanView::Value(
                ValueView::Str(#[trigger] s.subrange(i, j)),
            ) && (forall|k: int| 0 <= k < i || j <= k < s.len() ==> char_is_space(#[trigger] s[k])) && (i
                < j ==> !char_is_space(s[i]) && !char_is_space(s[j - 1])),
{
    let i = lemma_trim_front(s);
    let t = trim_front(s);
    let n = lemma_trim_back(t);
    let j = i + n;
    assert(t.subrange(0, n) =~= s.subrange(i, j));
    assert forall|k: int| 0 <= k < i || j <= k < s.len() implies char_is_space(#[trigger] s[k]) by {
        if j <= k {
            assert(t[k - i] == s[k]);
        }
    }
    assert(trim_text(s) == s.subrange(i, j));
}

/// A name that was bound by a `let` or an assignment stands for what was bound to it, and no other name
/// is touched.
pub proof fn law_binding_is_read_back(
    w: World,
    s: Stmt,
    env: Env,
    ret: Option<Seq<char>>,
    at: TrackView,
    fuel: nat,
    name: String,
    other: String,
    next: TrackView,
)
    requires
        match s {
            Stmt::Let { name: n, .. } => n == name,
            Stmt::Assign { name: n, .. } => n == name,
            _ => false,
        },
        stmt_at(w, s, env, ret, at, fuel).out is Ok,
        other@ != name@,
    ensures
        ({
            let r = stmt_at(w, s, env, ret, at, fuel);
            let after = r.out->Ok_0.1;
            let value = match s {
                Stmt::Let { type_ann, value, .. } => crate::interp::typed_at(
                    w,
                    value,
                    crate::resolve::opt_text(type_ann),
                    env,
                    at,
                    fuel,
                ),
                Stmt::Assign { value, .. } => eval_at(w, value, env, at, fuel),
                _ => eval_at(w, Expr::NoneLit, env, at, fuel),
            };
            &&& r.out->Ok_0.0 is Next
            &&& r.at == value.at
            &&& eval_at(w, Expr::Ident(name), after, next, fuel).out == value.out
            &&& eval_at(w, Expr::Ident(other), after, next, fuel) == eval_at(
                w,
                Expr::Ident(other),
                env,
                next,
                fuel,
            )
        }),
{
}

/// The statements of a body are run one after the other, until one of them leaves it or fails.
pub proof fn law_statements_run_in_order(
    w: World,
    ss: Seq<Stmt>,
    i: int,
    env: Env,
    ret: Option<Seq<char>>,
    at: TrackView,
    fuel: nat,
)
    requires
        0 <= i < ss.len(),
    ensures
        ({
            let one = stmt_at(w, ss[i], env, ret, at, fuel);
            let all = block_at(w, ss, i, env, ret, at, fuel);
            &&& one.out is Err ==> all == one
            &&& one.out is Ok && !(one.out->Ok_0.0 is Next) ==> all == one
            &&& one.out is Ok && one.out->Ok_0.0 is Next ==> all == block_at(
                w,
                ss,
                i + 1,
                one.out->Ok_0.1,
                ret,
                one.at,
                fuel,
            )
        }),
{
}

/// A `return` leaves its body with its value, `break` and `continue` leave it as they say.
pub proof fn law_return_gives_its_value(
    w: World,
    e: Expr,
    env: Env,
    ret: Option<Seq<char>>,
    at: TrackView,
    fuel: nat,
)
    ensures
        ({
            let v = crate::interp::typed_at(w, e, ret, env, at, fuel);
            let s = stmt_at(w, Stmt::Return(e), env, ret, at, fuel);
            &&& s.at == v.at
            &&& v.out is Ok ==> s.out is Ok && s.out->Ok_0.0 == FlowView::Return(v.out->Ok_0)
            &&& v.out is Err ==> s.out is Err && s.out->Err_0 == v.out->Err_0
        }),
        stmt_at(w, Stmt::Break, env, ret, at, fuel).out == Ok::<(FlowView, Env), StopView>(
            (FlowView::Break, env),
        ),
        stmt_at(w, Stmt::Continue, env, ret, at, fuel).out == Ok::<(FlowView, Env), StopView>(
            (FlowView::Continue, env),
        ),
{
}

/// An `if` runs its first body where the condition holds and its second one where it does not.
pub proof fn law_if_runs_one_body(
    w: World,
    cond: Expr,
    yes: Vec<Stmt>,
    no: Vec<Stmt>,
    env: Env,
    ret: Option<Seq<char>>,
    at: TrackView,
    fuel: nat,
    b: bool,
)
    requires
        comes_to(w, cond, env, at, fuel, ValueView::Bool(b)),
    ensures
        stmt_at(w, Stmt::If { cond, then_body: yes, else_body: no }, env, ret, at, fuel) == block_at(
            w,
            if b {
                yes@
            } else {
                no@
            },
            0,
            env,
            ret,
            eval_at(w, cond, env, at, fuel).at,
            fuel,
        ),
{
}

/// A `while` stops where its condition does not hold; where it does, its body is run, and the loop goes on
/// behind it unless the body left it.
pub proof fn law_while_repeats_its_body(
    w: World,
    cond: Expr,
    body: Vec<Stmt>,
    env: Env,
    ret: Option<Seq<char>>,
    at: TrackView,
    fuel: nat,
    b: bool,
)
    requires
        comes_to(w, cond, env, at, fuel, ValueView::Bool(b)),
    ensures
        ({
            let s = Stmt::While { cond, body };
            let all = stmt_at(w, s, env, ret, at, fuel);
            let mid = eval_at(w, cond, env, at, fuel).at;
            let one = block_at(w, body@, 0, env, ret, mid, fuel);
            if !b {
                all.out == Ok::<(FlowView, Env), StopView>((FlowView::Next, env)) && all.at == mid
            } else {
                match one.out {
                    Err(_) => all == one,
                    Ok((FlowView::Return(v), _)) => all == one,
                    Ok((FlowView::Break, after)) => all.out == Ok::<(FlowView, Env), StopView>(
                        (FlowView::Next, after),
                    ) && all.at == one.at,
                    Ok((_, after)) => fuel > 0 ==> all == stmt_at(
                        w,
                        s,
                        after,
                        ret,
                        one.at,
                        (fuel - 1) as nat,
                    ),
                }
            }
        }),
{
    let s = Stmt::While { cond, body };
    let mid = eval_at(w, cond, env, at, fuel).at;
    let one = block_at(w, body@, 0, env, ret, mid, fuel);
    assert(stmt_at(w, s, env, ret, at, fuel) == while_at(w, s, env, ret, at, fuel));
    if let Ok((_, after)) = one.out {
        if fuel > 0 {
            assert(stmt_at(w, s, after, ret, one.at, (fuel - 1) as nat) == while_at(
                w,
                s,
                after,
                ret,
                one.at,
                (fuel - 1) as nat,
            ));
        }
    }
}

/// A `for` runs its body once for each item, in order, with the item under its name, until the body leaves
/// it or returns.
pub proof fn law_for_runs_its_body_for_each_item(
    w: World,
    var: Seq<char>,
    items: Seq<ValueView>,
    k: int,
    body: Seq<Stmt>,
    env: Env,
    ret: Option<Seq<char>>,
    at: TrackView,
    fuel: nat,
)
    requires
        0 <= k <= items.len(),
    ensures
        ({
            let all = for_at(w, var, items, k, body, env, ret, at, fuel);
            if k == items.len() {
                all.out == Ok::<(FlowView, Env), StopView>((FlowView::Next, env)) && all.at == at
            } else {
                let one = block_at(w, body, 0, env.insert(var, items[k]), ret, at, fuel);
                match one.out {
                    Err(_) => all == one,
                    Ok((FlowView::Return(v), _)) => all == one,
                    Ok((FlowView::Break, after)) => all.out == Ok::<(FlowView, Env), StopView>(
                        (FlowView::Next, after),
                    ) && all.at == one.at,
                    Ok((_, after)) => all == for_at(
                        w,
                        var,
                        items,
                        k + 1,
                        body,
                        after,
                        ret,
                        one.at,
                        fuel,
                    ),
                }
            }
        }),
{
}

proof fn lemma_variant_arm(arms: Seq<MatchArm>, n: int, v: Seq<char>)
    requires
        0 <= n <= arms.len(),
    ensures
        match variant_arm(arms, n, v) {
            Some(i) => 0 <= i < n && is_variant_arm(arms[i], v) && forall|j: int|
                0 <= j < i ==> !is_variant_arm(#[trigger] arms[j], v),
            None => forall|j: int| 0 <= j < n ==> !is_variant_arm(#[trigger] arms[j], v),
        },
    decreases n,
{
    if n > 0 {
        lemma_variant_arm(arms, n - 1, v);
    }
}

proof fn lemma_wildcard_arm(arms: Seq<MatchArm>, n: int)
    requires
        0 <= n <= arms.len(),
    ensures
        match wildcard_arm(arms, n) {
            Some(i) => 0 <= i < n && arms[i].pattern is Wildcard && forall|j: int|
                0 <= j < i ==> !((#[trigger] arms[j]).pattern is Wildcard),
            None => forall|j: int| 0 <= j < n ==> !((#[trigger] arms[j]).pattern is Wildcard),
        },
    decreases n,
{
    if n > 0 {
        lemma_wildcard_arm(arms, n - 1);
    }
}

/// Whether an arm names a variant.
pub open spec fn names_variant(a: MatchArm, v: Seq<char>) -> bool {
    a.pattern matches MatchPat::Variant(n) && n@ == v
}

/// A `match` runs the first arm that names the variant; where none does, the first `_` arm; where there is
/// none of that either, nothing.
pub proof fn law_match_runs_its_arm(
    w: World,
    scrutinee: Expr,
    arms: Vec<MatchArm>,
    env: Env,
    ret: Option<Seq<char>>,
    at: TrackView,
    fuel: nat,
    v: Seq<char>,
    i: int,
)
    requires
        comes_to(w, scrutinee, env, at, fuel, ValueView::Str(v)),
        0 <= i < arms@.len(),
    ensures
        ({
            let all = stmt_at(w, Stmt::Match { scrutinee, arms }, env, ret, at, fuel);
            let mid = eval_at(w, scrutinee, env, at, fuel).at;
            let one = block_at(w, arms@[i].body@, 0, env, ret, mid, fuel);
            &&& names_variant(arms@[i], v) && (forall|j: int|
                0 <= j < i ==> !names_variant(#[trigger] arms@[j], v)) ==> all == one
            &&& (forall|j: int| 0 <= j < arms@.len() ==> !names_variant(#[trigger] arms@[j], v))
                && arms@[i].pattern is Wildcard && (forall|j: int|
                0 <= j < i ==> !((#[trigger] arms@[j]).pattern is Wildcard)) ==> all == one
            &&& (forall|j: int|
                0 <= j < arms@.len() ==> !names_variant(#[trigger] arms@[j], v)
                    && !(arms@[j].pattern is Wildcard)) ==> all.out == Ok::<(FlowView, Env), StopView>(
                (FlowView::Next, env),
            )
        }),
{
    lemma_variant_arm(arms@, arms@.len() as int, v);
    lemma_wildcard_arm(arms@, arms@.len() as int);
    assert forall|j: int| 0 <= j < arms@.len() implies (is_variant_arm(#[trigger] arms@[j], v)
        <==> names_variant(arms@[j], v)) by {}
}

/// The parameters of a function stand for its arguments, by their places.
pub proof fn law_parameters_stand_for_their_arguments(ps: Seq<Param>, vs: Seq<ValueView>, n: int, i: int)
    requires
        0 <= i < n <= ps.len(),
        n <= vs.len(),
        forall|j: int| i < j < n ==> (#[trigger] ps[j]).name@ != ps[i].name@,
    ensures
        bound_params(ps, vs, n).dom().contains(ps[i].name@),
        bound_params(ps, vs, n)[ps[i].name@] == vs[i],
    decreases n,
{
    if i < n - 1 {
        law_parameters_stand_for_their_arguments(ps, vs, n - 1, i);
    }
}

/// A field of a record is what the record holds under its name; another name is an error.
pub proof fn law_record_is_read_by_name(
    name: Seq<char>,
    fs: Seq<(Seq<char>, ValueView)>,
    i: int,
    field: Seq<char>,
)
    requires
        0 <= i < fs.len(),
    ensures
        fs[i].0 == field && (forall|j: int| 0 <= j < i ==> (#[trigger] fs[j]).0 != field) ==> field_of(
            ValueView::Record(name, fs),
            field,
        ) == PlanView::Value(fs[i].1),
        (forall|j: int| 0 <= j < fs.len() ==> (#[trigger] fs[j]).0 != field) ==> field_of(
            ValueView::Record(name, fs),
            field,
        ) is Failed,
{
    lemma_field_index(fs, fs.len() as int, field);
}

proof fn lemma_field_index(fs: Seq<(Seq<char>, ValueView)>, n: int, name: Seq<char>)
    requires
        0 <= n <= fs.len(),
    ensures
        match field_index(fs, n, name) {
            Some(i) => 0 <= i < n && fs[i].0 == name && forall|j: int|
                0 <= j < i ==> (#[trigger] fs[j]).0 != name,
            None => forall|j: int| 0 <= j < n ==> (#[trigger] fs[j]).0 != name,
        },
    decreases n,
{
    if n > 0 {
        lemma_field_index(fs, n - 1, name);
    }
}

/// Whether an expression comes to a value somewhere in a run.
pub open spec fn comes_of(w: World, e: Expr, env: Env, fuel: nat, v: ValueView) -> bool {
    exists|at: TrackView| #[trigger] comes_to(w, e, env, at, fuel, v)
}

/// `map` gives as many items as it was given, each what the closure makes of its counterpart.
pub proof fn law_map_keeps_places(
    w: World,
    items: Seq<ValueView>,
    i: int,
    names: Seq<String>,
    body: Expr,
    env: Env,
    at: TrackView,
    fuel: nat,
    seen: Seq<ValueView>,
)
    requires
        0 <= i <= items.len(),
        w.replies.len() == 0,
        map_at(w, items, i, names, body, env, at, fuel, seen).out is Ok,
    ensures
        ({
            let r = map_at(w, items, i, names, body, env, at, fuel, seen).out->Ok_0;
            &&& r is List
            &&& r->List_0.len() == seen.len() + items.len() - i
            &&& seen =~= r->List_0.subrange(0, seen.len() as int)
            &&& forall|k: int|
                i <= k < items.len() ==> comes_of(
                    w,
                    body,
                    closure_env(env, names, seq![#[trigger] items[k]]),
                    fuel,
                    r->List_0[seen.len() + k - i],
                )
        }),
    decreases items.len() - i,
{
    if i < items.len() {
        let one = eval_at(w, body, closure_env(env, names, seq![items[i]]), at, fuel);
        let more = seen.push(one.out->Ok_0);
        law_map_keeps_places(w, items, i + 1, names, body, env, one.at, fuel, more);
        let r = map_at(w, items, i, names, body, env, at, fuel, seen).out->Ok_0->List_0;
        assert(more[seen.len() as int] == r.subrange(0, more.len() as int)[seen.len() as int]);
        assert(seen =~= r.subrange(0, seen.len() as int)) by {
            assert forall|k: int| 0 <= k < seen.len() implies seen[k] == r[k] by {
                assert(more[k] == r.subrange(0, more.len() as int)[k]);
            }
        }
        assert(comes_to(
            w,
            body,
            closure_env(env, names, seq![items[i]]),
            at,
            fuel,
            r[seen.len() as int],
        ));
    }
}

/// `filter` keeps exactly the items that the closure holds of, in their order.
pub proof fn law_filter_keeps_what_holds(
    w: World,
    items: Seq<ValueView>,
    i: int,
    names: Seq<String>,
    body: Expr,
    env: Env,
    at: TrackView,
    fuel: nat,
    seen: Seq<ValueView>,
)
    requires
        0 <= i < items.len(),
    ensures
        ({
            let one = eval_at(w, body, closure_env(env, names, seq![items[i]]), at, fuel);
            let all = filter_at(w, items, i, names, body, env, at, fuel, seen);
            &&& one.out == Ok::<ValueView, StopView>(ValueView::Bool(true)) ==> all == filter_at(
                w,
                items,
                i + 1,
                names,
                body,
                env,
                one.at,
                fuel,
                seen.push(items[i]),
            )
            &&& one.out == Ok::<ValueView, StopView>(ValueView::Bool(false)) ==> all == filter_at(
                w,
                items,
                i + 1,
                names,
                body,
                env,
                one.at,
                fuel,
                seen,
            )
        }),
        filter_at(w, items, items.len() as int, names, body, env, at, fuel, seen).out == Ok::<
            ValueView,
            StopView,
        >(ValueView::List(seen)),
{
}

/// `reduce` starts with its first argument and goes through the items in order, each with what has come
/// together before it.
pub proof fn law_reduce_folds_from_the_left(
    w: World,
    items: Seq<ValueView>,
    i: int,
    names: Seq<String>,
    body: Expr,
    env: Env,
    at: TrackView,
    fuel: nat,
    acc: ValueView,
)
    requires
        0 <= i < items.len(),
    ensures
        ({
            let one = eval_at(w, body, closure_env(env, names, seq![acc, items[i]]), at, fuel);
            let all = reduce_at(w, items, i, names, body, env, at, fuel, acc);
            &&& one.out is Ok ==> all == reduce_at(
                w,
                items,
                i + 1,
                names,
                body,
                env,
                one.at,
                fuel,
                one.out->Ok_0,
            )
            &&& one.out is Err ==> all.out == one.out
        }),
        reduce_at(w, items, items.len() as int, names, body, env, at, fuel, acc).out == Ok::<
            ValueView,
            StopView,
        >(acc),
{
}

proof fn lemma_two_ints(a: int, b: int)
    ensures
        crate::builtin::ints_only(seq![ValueView::Int(a), ValueView::Int(b)], 2),
        crate::builtin::ints_only(seq![ValueView::Int(a)], 1),
{
    let two = seq![ValueView::Int(a), ValueView::Int(b)];
    let one = seq![ValueView::Int(a)];
    assert(crate::builtin::ints_only(two, 0));
    assert(crate::builtin::ints_only(two, 1));
    assert(crate::builtin::ints_only(one, 0));
}

/// The absolute value of an integer is no less than zero and is the integer or its opposite; the least and
/// the greatest of two integers are one of them, and no greater or no less than either. This is of the
/// integers that a fraction holds exactly.
pub proof fn law_math_of_integers(a: int, b: int, v: int)
    requires
        -0x20_0000_0000_0000 <= a <= 0x20_0000_0000_0000,
        -0x20_0000_0000_0000 <= b <= 0x20_0000_0000_0000,
    ensures
        builtin_called("abs"@, seq![ValueView::Int(a)]) == Some(PlanView::Value(ValueView::Int(v))) <==> v >= 0
            && (v == a || v == -a),
        builtin_called("min"@, seq![ValueView::Int(a), ValueView::Int(b)]) == Some(
            PlanView::Value(ValueView::Int(v)),
        ) <==> v <= a && v <= b && (v == a || v == b),
        builtin_called("max"@, seq![ValueView::Int(a), ValueView::Int(b)]) == Some(
            PlanView::Value(ValueView::Int(v)),
        ) <==> v >= a && v >= b && (v == a || v == b),
{
    lemma_math("abs"@, seq![ValueView::Int(a)]);
    lemma_math("min"@, seq![ValueView::Int(a), ValueView::Int(b)]);
    lemma_math("max"@, seq![ValueView::Int(a), ValueView::Int(b)]);
    lemma_two_ints(a, b);
    law_small_integers_are_exact(a);
    law_small_integers_are_exact(b);
    reveal_strlit("abs");
    reveal_strlit("min");
    reveal_strlit("max");
    assert("abs"@[0] == 'a' && "min"@[1] == 'i' && "max"@[1] == 'a' && "min"@[0] == 'm' && "max"@[0] == 'm');
}

} // verus!
