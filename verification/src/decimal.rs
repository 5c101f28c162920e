//! Exact decimal arithmetic on texts: a scaled integer, never a binary fraction.
use std::cmp::Ordering;
use vstd::prelude::*;
use vstd::string::*;

use crate::num::{
    all_digits, digits_value, is_digit, law_nat_text_reads_back, nat_text, u128_text,
};
use crate::scan::{find_char, find_one, lemma_find_char, trim, trim_text};
use crate::text::{cat2, cat3, chars_of, slice_text};
use crate::unicode::char_is_space;

verus! {

/// A decimal number: `value / 10^scale`.
pub struct Dec {
    pub value: int,
    pub scale: nat,
}

/// The powers of ten.
pub open spec fn pow10(n: nat) -> nat
    decreases n,
{
    if n == 0 {
        1
    } else {
        10 * pow10((n - 1) as nat)
    }
}

/// Whether an integer fits into an `i128`.
pub open spec fn fits(x: int) -> bool {
    i128::MIN <= x <= i128::MAX
}

/// What stands behind the sign of a decimal text.
pub open spec fn unsigned_part(t: Seq<char>) -> Seq<char> {
    if t.len() > 0 && (t[0] == '-' || t[0] == '+') {
        t.subrange(1, t.len() as int)
    } else {
        t
    }
}

/// What stands in front of the first dot.
pub open spec fn whole_part(u: Seq<char>) -> Seq<char> {
    match find_char(u, '.', 0) {
        Some(k) => u.subrange(0, k),
        None => u,
    }
}

/// What stands behind the first dot.
pub open spec fn fraction_part(u: Seq<char>) -> Seq<char> {
    match find_char(u, '.', 0) {
        Some(k) => u.subrange(k + 1, u.len() as int),
        None => Seq::empty(),
    }
}

/// The number that a decimal text stands for; `None` where it is not one, or too long for an `i128`.
pub open spec fn dec_of(s: Seq<char>) -> Option<Dec> {
    let t = trim_text(s);
    let u = unsigned_part(t);
    let digits = whole_part(u) + fraction_part(u);
    if digits.len() == 0 || !all_digits(digits) || digits_value(digits) > i128::MAX {
        None
    } else {
        let v = digits_value(digits) as int;
        Some(
            Dec {
                value: if t.len() > 0 && t[0] == '-' {
                    -v
                } else {
                    v
                },
                scale: fraction_part(u).len(),
            },
        )
    }
}

/// A value at a larger scale.
pub open spec fn rescaled(d: Dec, to: nat) -> int {
    d.value * pow10((to - d.scale) as nat)
}

/// The larger of two scales.
pub open spec fn common_scale(a: Dec, b: Dec) -> nat {
    if a.scale >= b.scale {
        a.scale
    } else {
        b.scale
    }
}

/// As many zeros.
pub open spec fn zeros(n: nat) -> Seq<char> {
    Seq::new(n, |i: int| '0')
}

/// The digits of a magnitude, with as many zeros in front that one digit stands before the dot.
pub open spec fn padded(m: nat, scale: nat) -> Seq<char> {
    let s = nat_text(m);
    if s.len() <= scale {
        zeros((scale + 1 - s.len()) as nat) + s
    } else {
        s
    }
}

/// A magnitude with its dot.
pub open spec fn magnitude_text(m: nat, scale: nat) -> Seq<char> {
    if scale == 0 {
        nat_text(m)
    } else {
        let p = padded(m, scale);
        p.subrange(0, p.len() - scale) + "."@ + p.subrange(p.len() - scale, p.len() as int)
    }
}

/// The text of a decimal number, with exactly `scale` digits behind the dot.
pub open spec fn dec_text(d: Dec) -> Seq<char> {
    if d.value < 0 {
        "-"@ + magnitude_text((-d.value) as nat, d.scale)
    } else {
        magnitude_text(d.value as nat, d.scale)
    }
}

/// The sum of two decimal numbers.
pub open spec fn dec_sum(a: Dec, b: Dec) -> Dec {
    let sc = common_scale(a, b);
    Dec { value: rescaled(a, sc) + rescaled(b, sc), scale: sc }
}

/// The difference of two decimal numbers.
pub open spec fn dec_difference(a: Dec, b: Dec) -> Dec {
    let sc = common_scale(a, b);
    Dec { value: rescaled(a, sc) - rescaled(b, sc), scale: sc }
}

/// The product of two decimal numbers.
pub open spec fn dec_product(a: Dec, b: Dec) -> Dec {
    Dec { value: a.value * b.value, scale: a.scale + b.scale }
}

/// Whether two numbers can be brought to one scale within an `i128`.
pub open spec fn aligned(a: Dec, b: Dec) -> bool {
    let sc = common_scale(a, b);
    &&& pow10((sc - a.scale) as nat) <= i128::MAX
    &&& pow10((sc - b.scale) as nat) <= i128::MAX
    &&& fits(rescaled(a, sc))
    &&& fits(rescaled(b, sc))
}

/// An operation of two decimal numbers.
#[derive(Debug, Clone, Copy, PartialEq, Eq, Structural)]
pub enum DecOp {
    Add,
    Sub,
    Mul,
}

/// The result of an operation.
pub open spec fn dec_result(op: DecOp, a: Dec, b: Dec) -> Dec {
    match op {
        DecOp::Add => dec_sum(a, b),
        DecOp::Sub => dec_difference(a, b),
        DecOp::Mul => dec_product(a, b),
    }
}

/// Whether an operation stays within an `i128`.
pub open spec fn op_fits(op: DecOp, a: Dec, b: Dec) -> bool {
    (op == DecOp::Mul || aligned(a, b)) && fits(dec_result(op, a, b).value)
}

/// Whether an operation on two texts stays within an `i128`; one on no numbers does.
pub open spec fn texts_fit(op: DecOp, a: Seq<char>, b: Seq<char>) -> bool {
    dec_of(a) is Some && dec_of(b) is Some ==> op_fits(op, dec_of(a)->0, dec_of(b)->0)
}

/// Whether two texts can be compared within an `i128`.
pub open spec fn texts_align(a: Seq<char>, b: Seq<char>) -> bool {
    dec_of(a) is Some && dec_of(b) is Some ==> aligned(dec_of(a)->0, dec_of(b)->0)
}

/// A parsed decimal number.
pub struct Scaled {
    pub value: i128,
    pub scale: usize,
}

impl View for Scaled {
    type V = Dec;

    open spec fn view(&self) -> Dec {
        Dec { value: self.value as int, scale: self.scale as nat }
    }
}

fn digits_to_value(b: &Vec<char>) -> (r: Option<i128>)
    ensures
        match r {
            Some(v) => b@.len() > 0 && all_digits(b@) && v == digits_value(b@) && v >= 0,
            None => b@.len() == 0 || !all_digits(b@) || digits_value(b@) > i128::MAX,
        },
{
    let n: usize = b.len();
    if n == 0 {
        return None;
    }
    let mut k: usize = 0;
    while k < n
        invariant
            k <= n,
            n == b@.len(),
            forall|j: int| 0 <= j < k ==> is_digit(#[trigger] b@[j]),
        decreases n - k,
    {
        if !('0' <= b[k] && b[k] <= '9') {
            proof {
                assert(!is_digit(b@[k as int]));
            }
            return None;
        }
        k = k + 1;
    }
    let mut v: i128 = 0;
    let mut i: usize = 0;
    proof {
        assert(b@.subrange(0, 0) =~= Seq::<char>::empty());
    }
    while i < n
        invariant
            i <= n,
            n == b@.len(),
            all_digits(b@),
            v >= 0,
            v == digits_value(b@.subrange(0, i as int)),
        decreases n - i,
    {
        proof {
            let next = b@.subrange(0, i + 1);
            assert(next.drop_last() =~= b@.subrange(0, i as int));
            assert(next.last() == b@[i as int]);
            assert(is_digit(b@[i as int]));
            lemma_value_grows(b@, i + 1, n as int);
            assert(b@.subrange(0, n as int) =~= b@);
        }
        let d: i128 = b[i] as u32 as i128 - 48;
        match v.checked_mul(10) {
            None => {
                return None;
            },
            Some(w) => match w.checked_add(d) {
                None => {
                    return None;
                },
                Some(x) => {
                    v = x;
                },
            },
        }
        i = i + 1;
    }
    proof {
        assert(b@.subrange(0, n as int) =~= b@);
    }
    Some(v)
}

proof fn lemma_value_grows(s: Seq<char>, m: int, n: int)
    requires
        0 <= m <= n <= s.len(),
        all_digits(s),
    ensures
        digits_value(s.subrange(0, m)) <= digits_value(s.subrange(0, n)),
    decreases n - m,
{
    if m < n {
        lemma_value_grows(s, m, n - 1);
        let t = s.subrange(0, n);
        assert(t.drop_last() =~= s.subrange(0, n - 1));
        assert(t.last() == s[n - 1]);
        assert(is_digit(s[n - 1]));
    }
}

/// The number that a decimal text stands for.
pub fn dec_parse(s: &str) -> (r: Option<Scaled>)
    ensures
        match r {
            Some(d) => dec_of(s@) == Some(d@),
            None => dec_of(s@) is None,
        },
{
    let t = trim(s);
    let b = chars_of(&t);
    let n: usize = b.len();
    let neg = n > 0 && b[0] == '-';
    let start: usize = if n > 0 && (b[0] == '-' || b[0] == '+') {
        1
    } else {
        0
    };
    let u = slice_text(&b, start, n);
    proof {
        assert(u@ =~= unsigned_part(t@));
    }
    let c = chars_of(&u);
    let m: usize = c.len();
    let (whole, fraction) = match find_one(&c, '.', 0) {
        Some(k) => {
            proof {
                lemma_find_char(c@, '.', 0);
            }
            (slice_text(&c, 0, k), slice_text(&c, k + 1, m))
        },
        None => (u, String::new()),
    };
    proof {
        assert(whole@ =~= whole_part(unsigned_part(t@)));
        assert(fraction@ =~= fraction_part(unsigned_part(t@)));
    }
    let digits = chars_of(&cat2(&whole, &fraction));
    match digits_to_value(&digits) {
        None => None,
        Some(v) => Some(
            Scaled {
                value: if neg {
                    -v
                } else {
                    v
                },
                scale: fraction.as_str().unicode_len(),
            },
        ),
    }
}

fn power(n: usize) -> (r: Option<i128>)
    ensures
        match r {
            Some(v) => v == pow10(n as nat),
            None => pow10(n as nat) > i128::MAX,
        },
{
    let mut v: i128 = 1;
    let mut i: usize = 0;
    while i < n
        invariant
            i <= n,
            v == pow10(i as nat),
            v > 0,
        decreases n - i,
    {
        proof {
            lemma_pow10_grows((i + 1) as nat, n as nat);
        }
        match v.checked_mul(10) {
            None => {
                return None;
            },
            Some(w) => {
                v = w;
            },
        }
        i = i + 1;
    }
    Some(v)
}

proof fn lemma_pow10_grows(m: nat, n: nat)
    requires
        m <= n,
    ensures
        1 <= pow10(m) <= pow10(n),
    decreases n,
{
    if m < n {
        lemma_pow10_grows(m, (n - 1) as nat);
    } else if m > 0 {
        lemma_pow10_grows((m - 1) as nat, (n - 1) as nat);
    }
}

/// A value at a larger scale; `None` where it does not fit into an `i128`.
pub fn dec_rescale(d: &Scaled, to: usize) -> (r: Option<i128>)
    requires
        d.scale <= to,
    ensures
        match r {
            Some(v) => pow10((to - d.scale) as nat) <= i128::MAX && v == rescaled(d@, to as nat),
            None => pow10((to - d.scale) as nat) > i128::MAX || !fits(rescaled(d@, to as nat)),
        },
{
    match power(to - d.scale) {
        None => None,
        Some(p) => d.value.checked_mul(p),
    }
}

fn zeros_src(n: usize) -> (r: String)
    ensures
        r@ == zeros(n as nat),
{
    let mut out = String::new();
    let mut i: usize = 0;
    proof {
        assert(out@ =~= zeros(0));
    }
    while i < n
        invariant
            i <= n,
            out@ == zeros(i as nat),
        decreases n - i,
    {
        out.push('0');
        i = i + 1;
        proof {
            assert(out@ =~= zeros(i as nat));
        }
    }
    out
}

/// The text of a decimal number.
pub fn dec_format(d: &Scaled) -> (r: String)
    requires
        d.scale < usize::MAX,
    ensures
        r@ == dec_text(d@),
{
    let mag: u128 = if d.value < 0 {
        ((-(d.value + 1)) as u128) + 1
    } else {
        d.value as u128
    };
    let s = u128_text(mag);
    let body = if d.scale == 0 {
        s
    } else {
        let len: usize = s.as_str().unicode_len();
        let p = if len <= d.scale {
            cat2(&zeros_src(d.scale + 1 - len), &s)
        } else {
            s
        };
        let b = chars_of(&p);
        let n: usize = b.len();
        let dot: usize = n - d.scale;
        cat3(&slice_text(&b, 0, dot), ".", &slice_text(&b, dot, n))
    };
    if d.value < 0 {
        cat2("-", &body)
    } else {
        body
    }
}

/// The outcome of a decimal operation.
pub enum Computed {
    Text(String),
    Invalid,
    Overflow,
}

/// An operation on two decimal texts: its result, or that a text is no number, or that the result
/// does not fit.
pub fn dec_apply(op: DecOp, a: &str, b: &str) -> (r: Computed)
    requires
        a@.len() + b@.len() < usize::MAX,
    ensures
        match r {
            Computed::Text(t) => dec_of(a@) is Some && dec_of(b@) is Some && op_fits(
                op,
                dec_of(a@)->0,
                dec_of(b@)->0,
            ) && t@ == dec_text(dec_result(op, dec_of(a@)->0, dec_of(b@)->0)),
            Computed::Invalid => dec_of(a@) is None || dec_of(b@) is None,
            Computed::Overflow => dec_of(a@) is Some && dec_of(b@) is Some && !op_fits(
                op,
                dec_of(a@)->0,
                dec_of(b@)->0,
            ),
        },
{
    let x = match dec_parse(a) {
        Some(d) => d,
        None => return Computed::Invalid,
    };
    let y = match dec_parse(b) {
        Some(d) => d,
        None => return Computed::Invalid,
    };
    proof {
        lemma_scale_bound(a@);
        lemma_scale_bound(b@);
    }
    if op == DecOp::Mul {
        return match x.value.checked_mul(y.value) {
            Some(v) => Computed::Text(dec_format(&Scaled { value: v, scale: x.scale + y.scale })),
            None => Computed::Overflow,
        };
    }
    let sc: usize = if x.scale >= y.scale {
        x.scale
    } else {
        y.scale
    };
    match (dec_rescale(&x, sc), dec_rescale(&y, sc)) {
        (Some(v), Some(w)) => {
            let res = if op == DecOp::Add {
                v.checked_add(w)
            } else {
                v.checked_sub(w)
            };
            match res {
                Some(z) => Computed::Text(dec_format(&Scaled { value: z, scale: sc })),
                None => Computed::Overflow,
            }
        },
        _ => Computed::Overflow,
    }
}

proof fn lemma_trim_shorter(s: Seq<char>)
    ensures
        crate::scan::trim_front(s).len() <= s.len(),
        crate::scan::trim_back(s).len() <= s.len(),
    decreases s.len(),
{
    if s.len() > 0 {
        if char_is_space(s[0]) {
            lemma_trim_shorter(s.subrange(1, s.len() as int));
        }
        if char_is_space(s.last()) {
            lemma_trim_shorter(s.drop_last());
        }
    }
}

proof fn lemma_scale_bound(s: Seq<char>)
    ensures
        dec_of(s) is Some ==> dec_of(s)->0.scale <= s.len(),
{
    lemma_trim_shorter(s);
    lemma_trim_shorter(crate::scan::trim_front(s));
    let u = unsigned_part(trim_text(s));
    lemma_find_char(u, '.', 0);
}

/// What an operation gives back: the text of its result, or an error where one of the texts is no
/// number.
pub open spec fn op_answer(op: DecOp, a: Seq<char>, b: Seq<char>, r: Result<String, String>) -> bool {
    match r {
        Ok(t) => dec_of(a) is Some && dec_of(b) is Some && t@ == dec_text(
            dec_result(op, dec_of(a)->0, dec_of(b)->0),
        ),
        Err(e) => (dec_of(a) is None || dec_of(b) is None) && e@ == "invalid Decimal"@,
    }
}

fn answer(op: DecOp, a: &str, b: &str) -> (r: Result<String, String>)
    requires
        a@.len() + b@.len() < usize::MAX,
        texts_fit(op, a@, b@),
    ensures
        op_answer(op, a@, b@, r),
{
    match dec_apply(op, a, b) {
        Computed::Text(t) => Ok(t),
        Computed::Invalid => Err("invalid Decimal".to_owned()),
        Computed::Overflow => Err(String::new()),
    }
}

/// The sum of two decimal texts.
pub fn dec_add(a: &str, b: &str) -> (r: Result<String, String>)
    requires
        a@.len() + b@.len() < usize::MAX,
        texts_fit(DecOp::Add, a@, b@),
    ensures
        op_answer(DecOp::Add, a@, b@, r),
{
    answer(DecOp::Add, a, b)
}

/// The difference of two decimal texts.
pub fn dec_sub(a: &str, b: &str) -> (r: Result<String, String>)
    requires
        a@.len() + b@.len() < usize::MAX,
        texts_fit(DecOp::Sub, a@, b@),
    ensures
        op_answer(DecOp::Sub, a@, b@, r),
{
    answer(DecOp::Sub, a, b)
}

/// The product of two decimal texts.
pub fn dec_mul(a: &str, b: &str) -> (r: Result<String, String>)
    requires
        a@.len() + b@.len() < usize::MAX,
        texts_fit(DecOp::Mul, a@, b@),
    ensures
        op_answer(DecOp::Mul, a@, b@, r),
{
    answer(DecOp::Mul, a, b)
}

/// How two numbers compare.
#[derive(Debug, Clone, Copy, PartialEq, Eq, Structural)]
pub enum Place {
    Below,
    Same,
    Above,
}

/// How two decimal numbers compare, by value.
pub open spec fn dec_place(a: Dec, b: Dec) -> Place {
    let sc = common_scale(a, b);
    if rescaled(a, sc) < rescaled(b, sc) {
        Place::Below
    } else if rescaled(a, sc) == rescaled(b, sc) {
        Place::Same
    } else {
        Place::Above
    }
}

/// The outcome of a decimal comparison.
pub enum Compared {
    At(Place),
    Invalid,
    Overflow,
}

/// Compares two decimal texts by value: the outcome, or that a text is no number, or that they do not
/// fit one scale.
pub fn dec_order(a: &str, b: &str) -> (r: Compared)
    ensures
        match r {
            Compared::At(p) => dec_of(a@) is Some && dec_of(b@) is Some && aligned(
                dec_of(a@)->0,
                dec_of(b@)->0,
            ) && p == dec_place(dec_of(a@)->0, dec_of(b@)->0),
            Compared::Invalid => dec_of(a@) is None || dec_of(b@) is None,
            Compared::Overflow => dec_of(a@) is Some && dec_of(b@) is Some && !aligned(
                dec_of(a@)->0,
                dec_of(b@)->0,
            ),
        },
{
    let x = match dec_parse(a) {
        Some(d) => d,
        None => return Compared::Invalid,
    };
    let y = match dec_parse(b) {
        Some(d) => d,
        None => return Compared::Invalid,
    };
    let sc: usize = if x.scale >= y.scale {
        x.scale
    } else {
        y.scale
    };
    match (dec_rescale(&x, sc), dec_rescale(&y, sc)) {
        (Some(v), Some(w)) => if v < w {
            Compared::At(Place::Below)
        } else if v == w {
            Compared::At(Place::Same)
        } else {
            Compared::At(Place::Above)
        },
        _ => Compared::Overflow,
    }
}

/// How two decimal texts compare, by value.
pub fn dec_cmp(a: &str, b: &str) -> (r: Result<Ordering, String>)
    requires
        texts_align(a@, b@),
    ensures
        match r {
            Ok(o) => dec_of(a@) is Some && dec_of(b@) is Some && o == (match dec_place(
                dec_of(a@)->0,
                dec_of(b@)->0,
            ) {
                Place::Below => Ordering::Less,
                Place::Same => Ordering::Equal,
                Place::Above => Ordering::Greater,
            }),
            Err(e) => (dec_of(a@) is None || dec_of(b@) is None) && e@ == "invalid Decimal"@,
        },
{
    match dec_order(a, b) {
        Compared::At(Place::Below) => Ok(Ordering::Less),
        Compared::At(Place::Same) => Ok(Ordering::Equal),
        Compared::At(Place::Above) => Ok(Ordering::Greater),
        Compared::Invalid => Err("invalid Decimal".to_owned()),
        Compared::Overflow => Err(String::new()),
    }
}

proof fn lemma_zeros_value(n: nat, s: Seq<char>)
    ensures
        digits_value(zeros(n) + s) == digits_value(s),
    decreases s.len(), n,
{
    let t = zeros(n) + s;
    if s.len() > 0 {
        assert(t.drop_last() =~= zeros(n) + s.drop_last());
        assert(t.last() == s.last());
        lemma_zeros_value(n, s.drop_last());
    } else if n > 0 {
        assert(t.drop_last() =~= zeros((n - 1) as nat) + s);
        assert(t.last() == '0');
        lemma_zeros_value((n - 1) as nat, s);
    } else {
        assert(t =~= s);
    }
}

proof fn lemma_no_trim(s: Seq<char>)
    requires
        s.len() > 0,
        !char_is_space(s[0]),
        !char_is_space(s.last()),
    ensures
        trim_text(s) == s,
{
}

proof fn lemma_padded(m: nat, scale: nat)
    ensures
        padded(m, scale).len() > scale,
        all_digits(padded(m, scale)),
        digits_value(padded(m, scale)) == m,
{
    law_nat_text_reads_back(m);
    let s = nat_text(m);
    if s.len() <= scale {
        let k = (scale + 1 - s.len()) as nat;
        lemma_zeros_value(k, s);
        let p = zeros(k) + s;
        assert forall|i: int| 0 <= i < p.len() implies is_digit(#[trigger] p[i]) by {
            if i >= k {
                assert(p[i] == s[i - k]);
            }
        }
    }
}

proof fn lemma_no_dot(s: Seq<char>, i: int)
    requires
        all_digits(s),
        0 <= i,
    ensures
        find_char(s, '.', i) is None,
    decreases s.len() - i,
{
    if i < s.len() {
        assert(is_digit(s[i]));
        lemma_no_dot(s, i + 1);
    }
}

proof fn lemma_dot_at(s: Seq<char>, k: int, i: int)
    requires
        0 <= i <= k < s.len(),
        s[k] == '.',
        forall|j: int| 0 <= j < k ==> is_digit(#[trigger] s[j]),
    ensures
        find_char(s, '.', i) == Some(k),
    decreases k - i,
{
    if i < k {
        assert(is_digit(s[i]));
        lemma_dot_at(s, k, i + 1);
    }
}

proof fn lemma_magnitude(m: nat, scale: nat)
    ensures
        ({
            let t = magnitude_text(m, scale);
            &&& t.len() > 0
            &&& is_digit(t[0])
            &&& is_digit(t.last())
            &&& whole_part(t) + fraction_part(t) =~= padded(m, scale)
            &&& fraction_part(t).len() == scale
        }),
{
    lemma_padded(m, scale);
    law_nat_text_reads_back(m);
    let t = magnitude_text(m, scale);
    let p = padded(m, scale);
    if scale == 0 {
        lemma_no_dot(t, 0);
        assert(p == nat_text(m));
        assert(is_digit(t[0]));
        assert(is_digit(t[t.len() - 1]));
    } else {
        reveal_strlit(".");
        let k = p.len() - scale;
        assert(t.len() == p.len() + 1);
        assert(t[k] == '.');
        assert forall|j: int| 0 <= j < k implies is_digit(#[trigger] t[j]) by {
            assert(t[j] == p[j]);
            assert(is_digit(p[j]));
        }
        lemma_dot_at(t, k, 0);
        assert(t.subrange(0, k) =~= p.subrange(0, k));
        assert(t.subrange(k + 1, t.len() as int) =~= p.subrange(k, p.len() as int));
        assert(p.subrange(0, k) + p.subrange(k, p.len() as int) =~= p);
        assert(t[0] == p[0]);
        assert(is_digit(p[0]));
        assert(t.last() == p[p.len() - 1]);
        assert(is_digit(p[p.len() - 1]));
    }
}

/// A decimal number is read back from its text as it was written: nothing is rounded.
pub proof fn law_dec_text_reads_back(d: Dec)
    requires
        -i128::MAX <= d.value <= i128::MAX,
    ensures
        dec_of(dec_text(d)) == Some(d),
{
    let m = if d.value < 0 {
        (-d.value) as nat
    } else {
        d.value as nat
    };
    let body = magnitude_text(m, d.scale);
    lemma_magnitude(m, d.scale);
    lemma_padded(m, d.scale);
    let t = dec_text(d);
    reveal_strlit("-");
    if d.value < 0 {
        assert(t[0] == '-');
        assert(t.last() == body.last());
        lemma_no_trim(t);
        assert(t.subrange(1, t.len() as int) =~= body);
    } else {
        assert(t == body);
        lemma_no_trim(t);
        assert(unsigned_part(t) == t);
    }
    assert(unsigned_part(t) =~= body);
    assert(whole_part(body) + fraction_part(body) == padded(m, d.scale));
}

/// The text of the least number, whose opposite does not fit, does not read back.
pub proof fn lemma_text_of_the_least(d: Dec)
    requires
        d.value == i128::MIN,
    ensures
        dec_of(dec_text(d)) is None,
{
    let m = (-d.value) as nat;
    let body = magnitude_text(m, d.scale);
    lemma_magnitude(m, d.scale);
    lemma_padded(m, d.scale);
    let t = dec_text(d);
    reveal_strlit("-");
    assert(t[0] == '-');
    assert(t.last() == body.last());
    lemma_no_trim(t);
    assert(t.subrange(1, t.len() as int) =~= body);
    assert(unsigned_part(t) =~= body);
    assert(whole_part(body) + fraction_part(body) == padded(m, d.scale));
}

/// Decimal arithmetic is exact: what an operation gives back reads as the sum, difference or product
/// of what its operands read as.
pub proof fn law_decimal_is_exact(op: DecOp, a: Seq<char>, b: Seq<char>)
    requires
        dec_of(a) is Some,
        dec_of(b) is Some,
        op_fits(op, dec_of(a)->0, dec_of(b)->0),
        dec_result(op, dec_of(a)->0, dec_of(b)->0).value > i128::MIN,
    ensures
        dec_of(dec_text(dec_result(op, dec_of(a)->0, dec_of(b)->0))) == Some(
            dec_result(op, dec_of(a)->0, dec_of(b)->0),
        ),
{
    law_dec_text_reads_back(dec_result(op, dec_of(a)->0, dec_of(b)->0));
}

/// Addition and multiplication of decimals do not depend on the order of the operands.
pub proof fn law_decimal_commutes(a: Dec, b: Dec)
    ensures
        dec_sum(a, b) == dec_sum(b, a),
        dec_product(a, b) == dec_product(b, a),
{
    assert(a.value * b.value == b.value * a.value) by (nonlinear_arith);
}

/// A decimal less itself is zero, at its own scale.
pub proof fn law_decimal_less_itself(a: Dec)
    ensures
        dec_difference(a, a) == (Dec { value: 0, scale: a.scale }),
{
}

/// Of two decimals exactly one comes first, or they have one value; the comparison reversed is the
/// reverse.
pub proof fn law_decimal_order_reverses(a: Dec, b: Dec)
    ensures
        dec_place(a, b) == Place::Same <==> dec_place(b, a) == Place::Same,
        dec_place(a, b) == Place::Below <==> dec_place(b, a) == Place::Above,
{
}

} // verus!
