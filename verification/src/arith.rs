//! Arithmetic and equality of run-time values. Integers compute as binary fractions of 53 digits do:
//! each operand and each result goes to the nearest of those, and back to 64 bits by saturation.
use vstd::prelude::*;
use vstd::string::*;

use crate::text::same;
use crate::value::{
    fields_view, lemma_fields_view, lemma_values_view, value_view, values_view, Number, NumberView,
    Value, ValueView,
};

verus! {

/// The distance of neighbouring 53-digit fractions at a magnitude of at least 2^52, and one below it.
pub open spec fn spacing(m: nat) -> nat
    decreases m,
{
    if m < 0x20_0000_0000_0000 {
        1
    } else {
        2 * spacing(m / 2)
    }
}

/// The multiple of `u` that is nearest to a magnitude; of two as near, the even one.
pub open spec fn round_to(m: nat, u: nat) -> nat {
    let q = m / u;
    let r = m % u;
    if 2 * r < u || (2 * r == u && q % 2 == 0) {
        q * u
    } else {
        (q + 1) * u
    }
}

/// The binary fraction nearest to an integer.
pub open spec fn nearest(n: int) -> int {
    if n < 0 {
        -(round_to((-n) as nat, spacing((-n) as nat)) as int)
    } else {
        round_to(n as nat, spacing(n as nat)) as int
    }
}

/// An integer brought into the range of 64 bits.
pub open spec fn saturated(n: int) -> int {
    if n > i64::MAX {
        i64::MAX as int
    } else if n < i64::MIN {
        i64::MIN as int
    } else {
        n
    }
}

proof fn lemma_spacing(m: nat)
    ensures
        1 <= spacing(m),
        m >= 1 ==> spacing(m) <= m,
    decreases m,
{
    if m >= 0x20_0000_0000_0000 {
        lemma_spacing(m / 2);
    }
}

/// Integers of at most 53 binary digits are fractions themselves: up to there, arithmetic is exact.
pub proof fn law_small_integers_are_exact(n: int)
    requires
        -0x20_0000_0000_0000 <= n <= 0x20_0000_0000_0000,
    ensures
        nearest(n) == n,
{
    let m = (if n < 0 {
        -n
    } else {
        n
    }) as nat;
    reveal_with_fuel(spacing, 2);
    if m < 0x20_0000_0000_0000 {
        assert(spacing(m) == 1);
        assert(round_to(m, 1) == m);
    } else {
        assert(spacing(m) == 2);
        assert(round_to(m, 2) == m);
    }
}

fn spacing_of(m: u128) -> (r: u128)
    ensures
        r == spacing(m as nat),
    decreases m,
{
    if m < 0x20_0000_0000_0000 {
        1
    } else {
        let h: u128 = spacing_of(m / 2);
        proof {
            lemma_spacing((m / 2) as nat);
        }
        2 * h
    }
}

fn round_of(m: u128) -> (r: u128)
    requires
        m <= 0x4000_0000_0000_0000_0000_0000_0000_0000,
    ensures
        r == round_to(m as nat, spacing(m as nat)),
        2 * r <= 3 * m,
{
    let u: u128 = spacing_of(m);
    proof {
        lemma_spacing(m as nat);
    }
    let q: u128 = m / u;
    let r: u128 = m % u;
    proof {
        assert(q * u + r == m) by (nonlinear_arith)
            requires
                q == m / u,
                r == m % u,
                u > 0,
        ;
        assert(0 <= r < u) by (nonlinear_arith)
            requires
                r == m % u,
                u > 0,
        ;
        assert((q + 1) * u == q * u + u) by (nonlinear_arith);
        assert(0 <= q <= m) by (nonlinear_arith)
            requires
                q == m / u,
                u > 0,
        ;
    }
    if 2 * r < u || (2 * r == u && q % 2 == 0) {
        q * u
    } else {
        (q + 1) * u
    }
}

/// The binary fraction nearest to an integer.
pub fn nearest_of(n: i128) -> (r: i128)
    requires
        -0x4000_0000_0000_0000_0000_0000_0000_0000 <= n
            <= 0x4000_0000_0000_0000_0000_0000_0000_0000,
    ensures
        r == nearest(n as int),
{
    if n < 0 {
        let m: u128 = round_of((-n) as u128);
        -(m as i128)
    } else {
        round_of(n as u128) as i128
    }
}

fn saturate(n: i128) -> (r: i64)
    ensures
        r == saturated(n as int),
{
    if n > i64::MAX as i128 {
        i64::MAX
    } else if n < i64::MIN as i128 {
        i64::MIN
    } else {
        n as i64
    }
}

pub proof fn lemma_nearest_bound(n: int)
    requires
        i64::MIN <= n <= i64::MAX,
    ensures
        -0x8000_0000_0000_0000 <= nearest(n) <= 0x8000_0000_0000_0000,
{
    lemma_round_bound(
        (if n < 0 {
            -n
        } else {
            n
        }) as nat,
    );
}

/// Rounding a magnitude of at most 2^63 stays at or below it.
proof fn lemma_round_bound(m: nat)
    requires
        m <= 0x8000_0000_0000_0000,
    ensures
        round_to(m, spacing(m)) <= 0x8000_0000_0000_0000,
{
    reveal_with_fuel(spacing, 13);
    let u = spacing(m);
    let k: nat = 0x8000_0000_0000_0000;
    assert(u == 1 || u == 2 || u == 4 || u == 8 || u == 16 || u == 32 || u == 64 || u == 128 || u
        == 256 || u == 512 || u == 1024 || u == 2048);
    let q = m / u;
    let r = m % u;
    assert(q * u + r == m && r < u) by (nonlinear_arith)
        requires
            q == m / u,
            r == m % u,
            u > 0,
    ;
    assert((q + 1) * u == q * u + u) by (nonlinear_arith);
    if r > 0 {
        assert(exists|t: int| k == #[trigger] (t * u)) by {
            assert(k == (k / u) * (u as int));
        }
        let t = choose|t: int| k == #[trigger] (t * u);
        assert((q + 1) * u <= k) by (nonlinear_arith)
            requires
                k == t * u,
                q * u < k,
                u > 0,
        ;
    }
}

/// The difference of two integers.
pub open spec fn int_minus(a: int, b: int) -> int {
    saturated(nearest(nearest(a) - nearest(b)))
}

/// The product of two integers.
pub open spec fn int_times(a: int, b: int) -> int {
    saturated(nearest(nearest(a) * nearest(b)))
}

/// The difference of two integers.
pub fn minus(a: i64, b: i64) -> (r: i64)
    ensures
        r == int_minus(a as int, b as int),
{
    proof {
        lemma_nearest_bound(a as int);
        lemma_nearest_bound(b as int);
    }
    let x: i128 = nearest_of(a as i128);
    let y: i128 = nearest_of(b as i128);
    saturate(nearest_of(x - y))
}

/// The product of two integers.
pub fn times(a: i64, b: i64) -> (r: i64)
    ensures
        r == int_times(a as int, b as int),
{
    proof {
        lemma_nearest_bound(a as int);
        lemma_nearest_bound(b as int);
    }
    let x: i128 = nearest_of(a as i128);
    let y: i128 = nearest_of(b as i128);
    proof {
        assert(-0x4000_0000_0000_0000_0000_0000_0000_0000 <= x * y
            <= 0x4000_0000_0000_0000_0000_0000_0000_0000) by (nonlinear_arith)
            requires
                -0x8000_0000_0000_0000 <= x <= 0x8000_0000_0000_0000,
                -0x8000_0000_0000_0000 <= y <= 0x8000_0000_0000_0000,
        ;
    }
    saturate(nearest_of(x * y))
}

/// Whether both operands of a quotient are small enough for it to be computed exactly.
pub open spec fn divides_exactly(a: int, b: int) -> bool {
    &&& -0x20_0000_0000_0000 <= a <= 0x20_0000_0000_0000
    &&& -0x20_0000_0000_0000 <= b <= 0x20_0000_0000_0000
}

/// The quotient of two integers, toward zero. Without a divisor it is as far out as 64 bits go, and
/// zero over zero is zero.
pub open spec fn int_over(a: int, b: int) -> int {
    if b == 0 {
        if a > 0 {
            i64::MAX as int
        } else if a < 0 {
            i64::MIN as int
        } else {
            0
        }
    } else if a >= 0 {
        if b > 0 {
            a / b
        } else {
            -(a / -b)
        }
    } else {
        if b > 0 {
            -(-a / b)
        } else {
            -a / -b
        }
    }
}

/// Whether two integers are small enough for their quotient to be computed exactly.
pub fn can_divide(a: i64, b: i64) -> (r: bool)
    ensures
        r == divides_exactly(a as int, b as int),
{
    -0x20_0000_0000_0000 <= a && a <= 0x20_0000_0000_0000 && -0x20_0000_0000_0000 <= b && b
        <= 0x20_0000_0000_0000
}

/// The quotient of two integers, toward zero.
pub fn over(a: i64, b: i64) -> (r: i64)
    requires
        divides_exactly(a as int, b as int),
    ensures
        r == int_over(a as int, b as int),
{
    if b == 0 {
        if a > 0 {
            i64::MAX
        } else if a < 0 {
            i64::MIN
        } else {
            0
        }
    } else if a >= 0 {
        if b > 0 {
            let q: u64 = a as u64 / b as u64;
            proof {
                assert(0 <= q <= a) by (nonlinear_arith)
                    requires
                        q == a as u64 / b as u64,
                        a >= 0,
                        b > 0,
                ;
            }
            q as i64
        } else {
            let q: u64 = a as u64 / (-b) as u64;
            proof {
                assert(0 <= q <= a) by (nonlinear_arith)
                    requires
                        q == a as u64 / (-b) as u64,
                        a >= 0,
                        -0x20_0000_0000_0000 <= b < 0,
                ;
            }
            -(q as i64)
        }
    } else {
        let m: i64 = -a;
        if b > 0 {
            let q: u64 = m as u64 / b as u64;
            proof {
                assert(0 <= q <= m) by (nonlinear_arith)
                    requires
                        q == m as u64 / b as u64,
                        m >= 0,
                        b > 0,
                ;
            }
            -(q as i64)
        } else {
            let q: u64 = m as u64 / (-b) as u64;
            proof {
                assert(0 <= q <= m) by (nonlinear_arith)
                    requires
                        q == m as u64 / (-b) as u64,
                        m >= 0,
                        -0x20_0000_0000_0000 <= b < 0,
                ;
            }
            q as i64
        }
    }
}

/// The negation of a number's text.
pub open spec fn flip_sign(t: Seq<char>) -> Seq<char> {
    if t == "NaN"@ {
        t
    } else if t.len() > 0 && t[0] == '-' {
        t.subrange(1, t.len() as int)
    } else {
        "-"@ + t
    }
}

/// The negation of a number.
pub open spec fn negated(n: NumberView) -> NumberView {
    NumberView {
        text: flip_sign(n.text),
        debug: flip_sign(n.debug),
        whole: saturated(
            if n.whole == i64::MAX {
                i64::MIN as int
            } else {
                -n.whole
            },
        ),
        integral: n.integral,
    }
}

fn flip(t: &str) -> (r: String)
    ensures
        r@ == flip_sign(t@),
{
    if same(t, "NaN") {
        return t.to_owned();
    }
    let b = crate::text::chars_of(t);
    if b.len() > 0 && b[0] == '-' {
        crate::text::slice_text(&b, 1, b.len())
    } else {
        crate::text::cat2("-", t)
    }
}

/// The negation of a number.
pub fn negate(n: &Number) -> (r: Number)
    ensures
        r@ == negated(n@),
{
    let whole: i64 = if n.whole == i64::MAX {
        i64::MIN
    } else if n.whole == i64::MIN {
        i64::MAX
    } else {
        -n.whole
    };
    Number { text: flip(&n.text), debug: flip(&n.debug), whole, integral: n.integral }
}

/// Whether a number is an integer's value. At the ends of the range of 64 bits, where many numbers
/// have the same whole part, its text decides.
pub open spec fn is_int(f: NumberView, n: int) -> bool {
    let x = nearest(n);
    f.integral && (if x > i64::MAX {
        f.text == "9223372036854776000"@
    } else if x <= i64::MIN {
        f.text == "-9223372036854776000"@
    } else {
        f.whole == x
    })
}

/// Whether a number is zero, of either sign.
pub open spec fn is_zero(f: NumberView) -> bool {
    f.text == "0"@ || f.text == "-0"@
}

/// Whether two numbers are equal. A number that is none is equal to nothing, and both zeros are.
pub open spec fn same_number(f: NumberView, g: NumberView) -> bool {
    f.text != "NaN"@ && (f.text == g.text || (is_zero(f) && is_zero(g)))
}

/// Whether two values are equal: at every depth, and an integer to the number of its value.
pub open spec fn equal(l: ValueView, r: ValueView) -> bool
    decreases l, 0int,
{
    match (l, r) {
        (ValueView::Int(a), ValueView::Int(b)) => a == b,
        (ValueView::Bool(a), ValueView::Bool(b)) => a == b,
        (ValueView::Str(a), ValueView::Str(b)) => a == b,
        (ValueView::Null, ValueView::Null) => true,
        (ValueView::Record(an, af), ValueView::Record(bn, bf)) => an == bn && af.len() == bf.len()
            && equal_fields(af, bf, af.len() as int),
        (ValueView::List(a), ValueView::List(b)) => a.len() == b.len() && equal_items(
            a,
            b,
            a.len() as int,
        ),
        (ValueView::Int(a), ValueView::Float(g)) => is_int(g, a),
        (ValueView::Float(f), ValueView::Int(b)) => is_int(f, b),
        (ValueView::Float(f), ValueView::Float(g)) => same_number(f, g),
        _ => false,
    }
}

/// Whether the first `n` values of two lists are equal.
pub open spec fn equal_items(a: Seq<ValueView>, b: Seq<ValueView>, n: int) -> bool
    decreases a, n,
{
    if n <= 0 || n > a.len() {
        true
    } else {
        equal_items(a, b, n - 1) && equal(a[n - 1], b[n - 1])
    }
}

/// Whether the first `n` fields of two records are equal.
pub open spec fn equal_fields(
    a: Seq<(Seq<char>, ValueView)>,
    b: Seq<(Seq<char>, ValueView)>,
    n: int,
) -> bool
    decreases a, n,
{
    if n <= 0 || n > a.len() {
        true
    } else {
        equal_fields(a, b, n - 1) && a[n - 1].0 == b[n - 1].0 && equal(a[n - 1].1, b[n - 1].1)
    }
}

fn number_is_int(f: &Number, n: i64) -> (r: bool)
    ensures
        r == is_int(f@, n as int),
{
    let x: i128 = nearest_of(n as i128);
    f.integral && (if x > i64::MAX as i128 {
        same(&f.text, "9223372036854776000")
    } else if x <= i64::MIN as i128 {
        same(&f.text, "-9223372036854776000")
    } else {
        f.whole as i128 == x
    })
}

fn number_is_zero(f: &Number) -> (r: bool)
    ensures
        r == is_zero(f@),
{
    same(&f.text, "0") || same(&f.text, "-0")
}

fn items_eq(a: &Vec<Value>, b: &Vec<Value>) -> (r: bool)
    requires
        a@.len() == b@.len(),
    ensures
        r == equal_items(
            values_view(a@, a@.len() as int),
            values_view(b@, b@.len() as int),
            a@.len() as int,
        ),
    decreases a, 0int,
{
    let ghost va = values_view(a@, a@.len() as int);
    let ghost vb = values_view(b@, b@.len() as int);
    proof {
        lemma_values_view(a@, a@.len() as int);
        lemma_values_view(b@, b@.len() as int);
    }
    let mut out: bool = true;
    let mut i: usize = 0;
    while i < a.len()
        invariant
            i <= a@.len(),
            a@.len() == b@.len(),
            va.len() == a@.len(),
            forall|j: int| 0 <= j < a@.len() ==> #[trigger] va[j] == value_view(a@[j]),
            forall|j: int| 0 <= j < a@.len() ==> #[trigger] vb[j] == value_view(b@[j]),
            out == equal_items(va, vb, i as int),
        decreases a.len() - i,
    {
        let same_here: bool = values_eq(&a[i], &b[i]);
        out = out && same_here;
        i = i + 1;
    }
    out
}

fn fields_eq(a: &Vec<(String, Value)>, b: &Vec<(String, Value)>) -> (r: bool)
    requires
        a@.len() == b@.len(),
    ensures
        r == equal_fields(
            fields_view(a@, a@.len() as int),
            fields_view(b@, b@.len() as int),
            a@.len() as int,
        ),
    decreases a, 0int,
{
    let ghost va = fields_view(a@, a@.len() as int);
    let ghost vb = fields_view(b@, b@.len() as int);
    proof {
        lemma_fields_view(a@, a@.len() as int);
        lemma_fields_view(b@, b@.len() as int);
    }
    let mut out: bool = true;
    let mut i: usize = 0;
    while i < a.len()
        invariant
            i <= a@.len(),
            a@.len() == b@.len(),
            va.len() == a@.len(),
            forall|j: int|
                0 <= j < a@.len() ==> #[trigger] va[j] == (a@[j].0@, value_view(a@[j].1)),
            forall|j: int|
                0 <= j < a@.len() ==> #[trigger] vb[j] == (b@[j].0@, value_view(b@[j].1)),
            out == equal_fields(va, vb, i as int),
        decreases a.len() - i,
    {
        let same_here: bool = same(&a[i].0, &b[i].0) && values_eq(&a[i].1, &b[i].1);
        out = out && same_here;
        i = i + 1;
    }
    out
}

/// Whether two values are equal.
pub fn values_eq(l: &Value, r: &Value) -> (res: bool)
    ensures
        res == equal(l@, r@),
    decreases l, 0int,
{
    match (l, r) {
        (Value::Int(a), Value::Int(b)) => *a == *b,
        (Value::Bool(a), Value::Bool(b)) => *a == *b,
        (Value::Str(a), Value::Str(b)) => same(a, b),
        (Value::Null, Value::Null) => true,
        (Value::Record(an, af), Value::Record(bn, bf)) => {
            proof {
                lemma_fields_view(af@, af@.len() as int);
                lemma_fields_view(bf@, bf@.len() as int);
            }
            same(an, bn) && af.len() == bf.len() && fields_eq(af, bf)
        },
        (Value::List(a), Value::List(b)) => {
            proof {
                lemma_values_view(a@, a@.len() as int);
                lemma_values_view(b@, b@.len() as int);
            }
            a.len() == b.len() && items_eq(a, b)
        },
        (Value::Int(a), Value::Float(g)) => number_is_int(g, *a),
        (Value::Float(f), Value::Int(b)) => number_is_int(f, *b),
        (Value::Float(f), Value::Float(g)) => !same(&f.text, "NaN") && (same(&f.text, &g.text) || (
        number_is_zero(f) && number_is_zero(g))),
        _ => false,
    }
}

} // verus!
