//! Lowering keeps the meaning of money: what an operator on decimals becomes computes that operator on the
//! numbers that the decimals stand for.
use vstd::prelude::*;
use vstd::string::*;

use crate::ast::{BinOp, Expr, XeresProgram};
use crate::builtin::{builtin_called, operated, PlanView};
use crate::decimal::{
    aligned, common_scale, dec_of, dec_result, dec_text, law_dec_text_reads_back, op_fits, pow10,
    rescaled, Dec, DecOp,
};
use crate::interp::{eval_at, evals_at, Env, StopView, TrackView, World};
use crate::lower::{lowered_callee, lowers};
use crate::num::int_text;
use crate::resolve::{type_of, LocalView};
use crate::run_laws::{between, comes_to};
use crate::value::ValueView;

verus! {

/// Ten times itself, so many times.
pub open spec fn tens(n: nat) -> int
    decreases n,
{
    if n == 0 {
        1
    } else {
        tens((n - 1) as nat) * 10
    }
}

/// Whether an order holds between two numbers `value / 10^scale`.
pub open spec fn is_ordered(op: BinOp, x: Dec, y: Dec) -> bool {
    let a = x.value * tens(y.scale);
    let b = y.value * tens(x.scale);
    match op {
        BinOp::Lt => a < b,
        BinOp::Gt => a > b,
        BinOp::LtEq => a <= b,
        _ => a >= b,
    }
}

/// Whether a number `value / 10^scale` is the sum, the difference or the product of two.
pub open spec fn is_result(op: BinOp, x: Dec, y: Dec, z: Dec) -> bool {
    let a = x.value * tens(y.scale);
    let b = y.value * tens(x.scale);
    z.value * tens(x.scale + y.scale) == tens(z.scale) * (match op {
        BinOp::Add => a + b,
        BinOp::Sub => a - b,
        _ => x.value * y.value,
    })
}

proof fn lemma_tens(n: nat)
    ensures
        tens(n) == pow10(n),
        tens(n) > 0,
    decreases n,
{
    if n > 0 {
        lemma_tens((n - 1) as nat);
    }
}

proof fn lemma_tens_add(m: nat, n: nat)
    ensures
        tens(m + n) == tens(m) * tens(n),
    decreases n,
{
    if n > 0 {
        lemma_tens_add(m, (n - 1) as nat);
        assert(m + n - 1 == m + (n - 1));
        let a = tens(m);
        let b = tens((n - 1) as nat);
        assert(a * b * 10 == a * (b * 10)) by (nonlinear_arith);
    }
}

proof fn lemma_scaled(x: Dec, sc: nat, more: nat)
    requires
        sc >= x.scale,
    ensures
        rescaled(x, sc) * tens(x.scale + more) == x.value * tens(more) * tens(sc),
{
    let k = (sc - x.scale) as nat;
    lemma_tens(k);
    lemma_tens_add(k, x.scale);
    lemma_tens_add(x.scale, more);
    let v = x.value;
    let a = tens(k);
    let b = tens(x.scale);
    let c = tens(more);
    assert(tens(sc) == a * b);
    assert(v * a * (b * c) == v * c * (a * b)) by (nonlinear_arith);
}

proof fn lemma_order(a: int, b: int, k: int)
    by (nonlinear_arith)
    requires
        k > 0,
    ensures
        a < b <==> a * k < b * k,
        a <= b <==> a * k <= b * k,
        a == b <==> a * k == b * k,
{
}

proof fn lemma_places(x: Dec, y: Dec)
    ensures
        ({
            let sc = common_scale(x, y);
            let a = x.value * tens(y.scale);
            let b = y.value * tens(x.scale);
            &&& rescaled(x, sc) < rescaled(y, sc) <==> a < b
            &&& rescaled(x, sc) == rescaled(y, sc) <==> a == b
        }),
{
    let sc = common_scale(x, y);
    let n = x.scale + y.scale;
    lemma_scaled(x, sc, y.scale);
    lemma_scaled(y, sc, x.scale);
    lemma_tens(n);
    lemma_tens(sc);
    lemma_order(rescaled(x, sc), rescaled(y, sc), tens(n));
    lemma_order(x.value * tens(y.scale), y.value * tens(x.scale), tens(sc));
    assert(y.scale + x.scale == n);
}

proof fn lemma_result(x: Dec, y: Dec)
    ensures
        is_result(BinOp::Add, x, y, dec_result(DecOp::Add, x, y)),
        is_result(BinOp::Sub, x, y, dec_result(DecOp::Sub, x, y)),
        is_result(BinOp::Mul, x, y, dec_result(DecOp::Mul, x, y)),
{
    let sc = common_scale(x, y);
    lemma_scaled(x, sc, y.scale);
    lemma_scaled(y, sc, x.scale);
    let n = tens(x.scale + y.scale);
    assert(y.scale + x.scale == x.scale + y.scale);
    let p = rescaled(x, sc);
    let q = rescaled(y, sc);
    let a = x.value * tens(y.scale);
    let b = y.value * tens(x.scale);
    let t = tens(sc);
    assert((p + q) * n == p * n + q * n) by (nonlinear_arith);
    assert((p - q) * n == p * n - q * n) by (nonlinear_arith);
    assert(t * (a + b) == a * t + b * t) by (nonlinear_arith);
    assert(t * (a - b) == a * t - b * t) by (nonlinear_arith);
    let v = x.value * y.value;
    assert(v * n == n * v) by (nonlinear_arith);
}

proof fn lemma_dec_called(op: Seq<char>, args: Seq<ValueView>)
    ensures
        builtin_called("__dec_"@ + op, args) == Some(crate::builtin::dec_called(op, args)),
{
    reveal_strlit("__dec_");
    reveal_strlit("uid");
    reveal_strlit("hash");
    reveal_strlit("verify");
    reveal_strlit("now");
    reveal_strlit("decimal");
    let n = "__dec_"@ + op;
    assert(n[0] == '_');
    assert("uid"@[0] == 'u' && "hash"@[0] == 'h' && "verify"@[0] == 'v' && "now"@[0] == 'n' && "decimal"@[0]
        == 'd');
    assert(n.subrange(0, 6) =~= "__dec_"@);
    assert(n.subrange(6, n.len() as int) =~= op);
}

proof fn lemma_op_words()
    ensures
        "lt"@ != "gt"@ && "lt"@ != "le"@ && "lt"@ != "ge"@ && "gt"@ != "le"@ && "gt"@ != "ge"@ && "le"@
            != "ge"@,
        "add"@ != "sub"@ && "add"@ != "mul"@ && "sub"@ != "mul"@,
        "lt"@.len() == 2 && "gt"@.len() == 2 && "le"@.len() == 2 && "ge"@.len() == 2,
        "add"@.len() == 3 && "sub"@.len() == 3 && "mul"@.len() == 3,
{
    reveal_strlit("add");
    reveal_strlit("sub");
    reveal_strlit("mul");
    reveal_strlit("lt");
    reveal_strlit("gt");
    reveal_strlit("le");
    reveal_strlit("ge");
    assert("lt"@[0] == 'l' && "lt"@[1] == 't' && "gt"@[0] == 'g' && "gt"@[1] == 't' && "le"@[0] == 'l'
        && "le"@[1] == 'e' && "ge"@[0] == 'g' && "ge"@[1] == 'e');
    assert("add"@[0] == 'a' && "sub"@[0] == 's' && "mul"@[0] == 'm');
}

proof fn lemma_dec_words()
    ensures
        "__dec_add"@ == "__dec_"@ + "add"@,
        "__dec_sub"@ == "__dec_"@ + "sub"@,
        "__dec_mul"@ == "__dec_"@ + "mul"@,
        "__dec_lt"@ == "__dec_"@ + "lt"@,
        "__dec_gt"@ == "__dec_"@ + "gt"@,
        "__dec_le"@ == "__dec_"@ + "le"@,
        "__dec_ge"@ == "__dec_"@ + "ge"@,
{
    reveal_strlit("__dec_");
    reveal_strlit("__dec_add");
    reveal_strlit("__dec_sub");
    reveal_strlit("__dec_mul");
    reveal_strlit("__dec_lt");
    reveal_strlit("__dec_gt");
    reveal_strlit("__dec_le");
    reveal_strlit("__dec_ge");
    reveal_strlit("add");
    reveal_strlit("sub");
    reveal_strlit("mul");
    reveal_strlit("lt");
    reveal_strlit("gt");
    reveal_strlit("le");
    reveal_strlit("ge");
    assert("__dec_add"@ =~= "__dec_"@ + "add"@);
    assert("__dec_sub"@ =~= "__dec_"@ + "sub"@);
    assert("__dec_mul"@ =~= "__dec_"@ + "mul"@);
    assert("__dec_lt"@ =~= "__dec_"@ + "lt"@);
    assert("__dec_gt"@ =~= "__dec_"@ + "gt"@);
    assert("__dec_le"@ =~= "__dec_"@ + "le"@);
    assert("__dec_ge"@ =~= "__dec_"@ + "ge"@);
}

proof fn lemma_dec_names(args: Seq<ValueView>)
    ensures
        builtin_called("__dec_add"@, args) == Some(crate::builtin::dec_called("add"@, args)),
        builtin_called("__dec_sub"@, args) == Some(crate::builtin::dec_called("sub"@, args)),
        builtin_called("__dec_mul"@, args) == Some(crate::builtin::dec_called("mul"@, args)),
        builtin_called("__dec_lt"@, args) == Some(crate::builtin::dec_called("lt"@, args)),
        builtin_called("__dec_gt"@, args) == Some(crate::builtin::dec_called("gt"@, args)),
        builtin_called("__dec_le"@, args) == Some(crate::builtin::dec_called("le"@, args)),
        builtin_called("__dec_ge"@, args) == Some(crate::builtin::dec_called("ge"@, args)),
{
    lemma_dec_words();
    lemma_dec_called("add"@, args);
    lemma_dec_called("sub"@, args);
    lemma_dec_called("mul"@, args);
    lemma_dec_called("lt"@, args);
    lemma_dec_called("gt"@, args);
    lemma_dec_called("le"@, args);
    lemma_dec_called("ge"@, args);
}

/// What an operator on two decimals is lowered to, called with them; nothing where it is not lowered.
pub open spec fn lowered_call(op: BinOp, l: ValueView, r: ValueView) -> Option<PlanView> {
    match lowered_callee(op, Some("Decimal"@), Some("Decimal"@)) {
        Some(c) => builtin_called(c, seq![l, r]),
        None => None,
    }
}

/// An order of two decimals is lowered to the order of the numbers that they stand for.
pub proof fn law_lowered_order_is_of_the_numbers(op: BinOp, a: Seq<char>, b: Seq<char>)
    requires
        op == BinOp::Lt || op == BinOp::Gt || op == BinOp::LtEq || op == BinOp::GtEq,
        dec_of(a) is Some,
        dec_of(b) is Some,
        aligned(dec_of(a)->0, dec_of(b)->0),
    ensures
        lowered_call(op, ValueView::Str(a), ValueView::Str(b)) == Some(
            PlanView::Value(ValueView::Bool(is_ordered(op, dec_of(a)->0, dec_of(b)->0))),
        ),
{
    lemma_op_words();
    lemma_places(dec_of(a)->0, dec_of(b)->0);
    let args = seq![ValueView::Str(a), ValueView::Str(b)];
    lemma_dec_names(args);
    assert(args.len() == 2 && args[0] == ValueView::Str(a) && args[1] == ValueView::Str(b));
}

/// The decimal operation of an operator.
spec fn operation(op: BinOp) -> DecOp {
    match op {
        BinOp::Add => DecOp::Add,
        BinOp::Sub => DecOp::Sub,
        _ => DecOp::Mul,
    }
}

/// A sum, a difference or a product of two decimals is lowered to that of the numbers that they stand for:
/// what comes out reads as exactly the result.
pub proof fn law_lowered_arithmetic_is_of_the_numbers(op: BinOp, a: Seq<char>, b: Seq<char>)
    requires
        op == BinOp::Add || op == BinOp::Sub || op == BinOp::Mul,
        a.len() + b.len() < usize::MAX,
        dec_of(a) is Some,
        dec_of(b) is Some,
    ensures
        ({
            let x = dec_of(a)->0;
            let y = dec_of(b)->0;
            let p = lowered_call(op, ValueView::Str(a), ValueView::Str(b));
            &&& p is Some
            &&& p->0 is Value || p->0 is Overflow
            &&& p->0 matches PlanView::Value(v) ==> v is Str && {
                let z = dec_of(v->Str_0);
                z is Some ==> is_result(op, x, y, z->0)
            }
            &&& within(x) && within(y) ==> p->0 is Value && p->0->Value_0 is Str && dec_of(
                p->0->Value_0->Str_0,
            ) is Some
        }),
{
    lemma_op_words();
    let x = dec_of(a)->0;
    let y = dec_of(b)->0;
    lemma_result(x, y);
    let args = seq![ValueView::Str(a), ValueView::Str(b)];
    lemma_dec_names(args);
    assert(args.len() == 2 && args[0] == ValueView::Str(a) && args[1] == ValueView::Str(b));
    let d = operation(op);
    let z = dec_result(d, x, y);
    if within(x) && within(y) {
        lemma_within(x, y);
    }
    if op_fits(d, x, y) {
        if z.value > i128::MIN {
            law_dec_text_reads_back(z);
        } else {
            lemma_least_has_no_reading(z);
        }
    }
}

proof fn lemma_least_has_no_reading(z: Dec)
    requires
        z.value == i128::MIN,
    ensures
        dec_of(dec_text(z)) is None,
{
    crate::decimal::lemma_text_of_the_least(z);
}

/// Whether a number is of a usual size: at most eighteen digits, at most eighteen of them behind the dot.
pub open spec fn within(x: Dec) -> bool {
    -1_000_000_000_000_000_000 <= x.value <= 1_000_000_000_000_000_000 && x.scale <= 18
}

proof fn lemma_tens_grow(m: nat, n: nat)
    requires
        m <= n,
    ensures
        1 <= tens(m) <= tens(n),
    decreases n,
{
    lemma_tens(m);
    if m < n {
        lemma_tens_grow(m, (n - 1) as nat);
    }
}

proof fn lemma_within(x: Dec, y: Dec)
    requires
        within(x),
        within(y),
    ensures
        aligned(x, y),
        op_fits(DecOp::Add, x, y),
        op_fits(DecOp::Sub, x, y),
        op_fits(DecOp::Mul, x, y),
        dec_result(DecOp::Add, x, y).value > i128::MIN,
        dec_result(DecOp::Sub, x, y).value > i128::MIN,
        dec_result(DecOp::Mul, x, y).value > i128::MIN,
{
    let sc = common_scale(x, y);
    let i = (sc - x.scale) as nat;
    let j = (sc - y.scale) as nat;
    lemma_tens(i);
    lemma_tens(j);
    lemma_tens_grow(i, 18);
    lemma_tens_grow(j, 18);
    assert(tens(18) == 1_000_000_000_000_000_000) by {
        reveal_with_fuel(tens, 19);
    }
    let c: int = 1_000_000_000_000_000_000;
    let v = x.value;
    let u = y.value;
    let s = tens(i);
    let t = tens(j);
    assert(-(c * c) <= v * s <= c * c) by (nonlinear_arith)
        requires
            -c <= v <= c,
            1 <= s <= c,
    ;
    assert(-(c * c) <= u * t <= c * c) by (nonlinear_arith)
        requires
            -c <= u <= c,
            1 <= t <= c,
    ;
    assert(-(c * c) <= v * u <= c * c) by (nonlinear_arith)
        requires
            -c <= u <= c,
            -c <= v <= c,
    ;
    assert(c * c == 1_000_000_000_000_000_000_000_000_000_000_000_000);
}

/// Money of a usual size can be compared.
pub proof fn law_usual_money_is_comparable(a: Seq<char>, b: Seq<char>)
    requires
        dec_of(a) is Some,
        dec_of(b) is Some,
        within(dec_of(a)->0),
        within(dec_of(b)->0),
    ensures
        aligned(dec_of(a)->0, dec_of(b)->0),
{
    lemma_within(dec_of(a)->0, dec_of(b)->0);
}

/// Which operators on decimals are lowered: the sum, the difference, the product and the four orders.
/// Equality compares the texts, and nothing else is an operator on decimals.
pub proof fn law_lowered_operators(op: BinOp)
    ensures
        lowered_callee(op, Some("Decimal"@), Some("Decimal"@)) is Some <==> op == BinOp::Add || op
            == BinOp::Sub || op == BinOp::Mul || op == BinOp::Lt || op == BinOp::Gt || op == BinOp::LtEq
            || op == BinOp::GtEq,
{
    reveal_strlit("Decimal");
    reveal_strlit("String");
    assert("Decimal"@.len() != "String"@.len());
}

/// A product of a decimal and an integer, on either side, is that of the numbers.
pub proof fn law_lowered_product_with_an_integer(a: Seq<char>, n: int)
    requires
        i64::MIN <= n <= i64::MAX,
        a.len() + int_text(n).len() < usize::MAX,
        dec_of(a) is Some,
    ensures
        ({
            let c = lowered_callee(BinOp::Mul, Some("Decimal"@), Some("Int"@));
            let d = lowered_callee(BinOp::Mul, Some("Int"@), Some("Decimal"@));
            &&& c is Some
            &&& d == c
            &&& builtin_called(c->0, seq![ValueView::Str(a), ValueView::Int(n)]) == lowered_call(
                BinOp::Mul,
                ValueView::Str(a),
                ValueView::Str(int_text(n)),
            )
            &&& builtin_called(c->0, seq![ValueView::Int(n), ValueView::Str(a)]) == lowered_call(
                BinOp::Mul,
                ValueView::Str(int_text(n)),
                ValueView::Str(a),
            )
            &&& dec_of(int_text(n)) == Some(Dec { value: n, scale: 0 })
        }),
{
    lemma_integer_text(n);
    lemma_product_callee();
    let t = ValueView::Str(int_text(n));
    let s = ValueView::Str(a);
    let i = ValueView::Int(n);
    lemma_product_call(s, i, s, t);
    lemma_product_call(i, s, t, s);
}

proof fn lemma_product_callee()
    ensures
        lowered_callee(BinOp::Mul, Some("Decimal"@), Some("Int"@)) == Some("__dec_mul"@),
        lowered_callee(BinOp::Mul, Some("Int"@), Some("Decimal"@)) == Some("__dec_mul"@),
        lowered_callee(BinOp::Mul, Some("Decimal"@), Some("Decimal"@)) == Some("__dec_mul"@),
{
}

proof fn lemma_product_call(l: ValueView, r: ValueView, x: ValueView, y: ValueView)
    requires
        crate::builtin::dec_operand(Some(l)) == crate::builtin::dec_operand(Some(x)),
        crate::builtin::dec_operand(Some(r)) == crate::builtin::dec_operand(Some(y)),
    ensures
        builtin_called("__dec_mul"@, seq![l, r]) == builtin_called("__dec_mul"@, seq![x, y]),
{
    lemma_dec_words();
    lemma_dec_called("mul"@, seq![l, r]);
    lemma_dec_called("mul"@, seq![x, y]);
    lemma_same_operands("mul"@, l, r, x, y);
}

proof fn lemma_integer_text(n: int)
    requires
        i64::MIN <= n <= i64::MAX,
    ensures
        dec_of(int_text(n)) == Some(Dec { value: n, scale: 0 }),
{
    let d = Dec { value: n, scale: 0 };
    law_dec_text_reads_back(d);
    assert(dec_text(d) == int_text(n));
}

proof fn lemma_same_operands(op: Seq<char>, l: ValueView, r: ValueView, x: ValueView, y: ValueView)
    requires
        crate::builtin::dec_operand(Some(l)) == crate::builtin::dec_operand(Some(x)),
        crate::builtin::dec_operand(Some(r)) == crate::builtin::dec_operand(Some(y)),
    ensures
        crate::builtin::dec_called(op, seq![l, r]) == crate::builtin::dec_called(op, seq![x, y]),
{
    let p = seq![l, r];
    let q = seq![x, y];
    assert(p[0] == l && p[1] == r && q[0] == x && q[1] == y);
}

/// What is no operator on decimals is left as it is, but for `+` with a text, which becomes the joining of
/// texts that it stands for.
pub proof fn law_other_operators_are_kept(
    op: BinOp,
    lt: Option<Seq<char>>,
    rt: Option<Seq<char>>,
    l: ValueView,
    r: ValueView,
)
    requires
        !(lt == Some("Decimal"@) && rt == Some("Decimal"@)),
        !(op == BinOp::Mul && (lt == Some("Decimal"@) || rt == Some("Decimal"@))),
    ensures
        lowered_callee(op, lt, rt) is Some ==> op == BinOp::Add && (lt == Some("String"@) || rt == Some(
            "String"@,
        )),
        op == BinOp::Add && (lt == Some("String"@) || rt == Some("String"@)) ==> lowered_callee(
            op,
            lt,
            rt,
        ) is Some,
        lowered_callee(op, lt, rt) is Some && (l is Str || r is Str) ==> builtin_called(
            lowered_callee(op, lt, rt)->0,
            seq![l, r],
        ) == Some(operated(op, l, r)),
{
    if lowered_callee(op, lt, rt) is Some {
        if l is Str {
            crate::run_laws::law_plus_joins_texts(l->Str_0, r);
        } else if r is Str {
            crate::run_laws::law_plus_joins_texts(r->Str_0, l);
        }
    }
}

/// What a lowered expression of two decimals comes to: the order of their numbers, where the operator is
/// one.
pub proof fn law_lowered_comparison_comes_to_the_order(
    w: World,
    op: BinOp,
    l: Expr,
    r: Expr,
    e: Expr,
    ls: Map<Seq<char>, LocalView>,
    p: XeresProgram,
    env: Env,
    at: TrackView,
    fuel: nat,
    a: Seq<char>,
    b: Seq<char>,
)
    requires
        op == BinOp::Lt || op == BinOp::Gt || op == BinOp::LtEq || op == BinOp::GtEq,
        lowers(between(op, l, r), e, ls, p),
        e is Call,
        type_of(e->Call_args@[0], ls, p) == Some("Decimal"@),
        type_of(e->Call_args@[1], ls, p) == Some("Decimal"@),
        comes_to(w, e->Call_args@[0], env, at, fuel, ValueView::Str(a)),
        comes_to(
            w,
            e->Call_args@[1],
            env,
            eval_at(w, e->Call_args@[0], env, at, fuel).at,
            fuel,
            ValueView::Str(b),
        ),
        fuel > 0,
        dec_of(a) is Some,
        dec_of(b) is Some,
        aligned(dec_of(a)->0, dec_of(b)->0),
    ensures
        lowers(l, e->Call_args@[0], ls, p),
        lowers(r, e->Call_args@[1], ls, p),
        comes_to(
            w,
            e,
            env,
            at,
            fuel,
            ValueView::Bool(is_ordered(op, dec_of(a)->0, dec_of(b)->0)),
        ),
{
    law_lowered_order_is_of_the_numbers(op, a, b);
    let args = e->Call_args@;
    let x = eval_at(w, args[0], env, at, fuel);
    let y = eval_at(w, args[1], env, x.at, fuel);
    let va = ValueView::Str(a);
    let vb = ValueView::Str(b);
    let none = Seq::<ValueView>::empty();
    assert(evals_at(w, args, 2, env, y.at, fuel, none.push(va).push(vb)).out == Ok::<
        Seq<ValueView>,
        StopView,
    >(none.push(va).push(vb)));
    assert(evals_at(w, args, 1, env, x.at, fuel, none.push(va)) == evals_at(
        w,
        args,
        2,
        env,
        y.at,
        fuel,
        none.push(va).push(vb),
    ));
    assert(evals_at(w, args, 0, env, at, fuel, none) == evals_at(
        w,
        args,
        1,
        env,
        x.at,
        fuel,
        none.push(va),
    ));
    assert(none.push(va).push(vb) =~= seq![va, vb]);
    assert(crate::interp::call_at(w, e->Call_callee@, seq![va, vb], y.at, (fuel - 1) as nat).out == Ok::<
        ValueView,
        StopView,
    >(ValueView::Bool(is_ordered(op, dec_of(a)->0, dec_of(b)->0))));
}

} // verus!
