//! Integers as decimal text.
use vstd::prelude::*;
use vstd::string::*;

use crate::text::cat2;

verus! {

/// The decimal digit character for a value below ten.
pub open spec fn digit_of(d: int) -> char {
    (48 + d) as char
}

/// The decimal text of a natural number, without leading zeros.
pub open spec fn nat_text(n: nat) -> Seq<char>
    decreases n,
{
    if n < 10 {
        seq![digit_of(n as int)]
    } else {
        nat_text(n / 10).push(digit_of((n % 10) as int))
    }
}

/// The decimal text of an integer, with a leading `-` where it is negative.
pub open spec fn int_text(n: int) -> Seq<char> {
    if n < 0 {
        "-"@ + nat_text((-n) as nat)
    } else {
        nat_text(n as nat)
    }
}

/// The value that a run of decimal digits stands for.
pub open spec fn digits_value(s: Seq<char>) -> nat
    decreases s.len(),
{
    if s.len() == 0 {
        0
    } else {
        digits_value(s.drop_last()) * 10 + (s.last() as int - 48) as nat
    }
}

/// Whether a character is an ASCII decimal digit.
pub open spec fn is_digit(c: char) -> bool {
    '0' <= c <= '9'
}

/// Whether every character of a text is an ASCII decimal digit.
pub open spec fn all_digits(s: Seq<char>) -> bool {
    forall|i: int| 0 <= i < s.len() ==> is_digit(#[trigger] s[i])
}

/// Decimal text reads back as the number it was written from, and holds digits only.
pub proof fn law_nat_text_reads_back(n: nat)
    ensures
        digits_value(nat_text(n)) == n,
        all_digits(nat_text(n)),
        nat_text(n).len() >= 1,
    decreases n,
{
    if n < 10 {
        let s = nat_text(n);
        assert(s.drop_last() =~= Seq::<char>::empty());
        assert(digits_value(s.drop_last()) == 0);
    } else {
        law_nat_text_reads_back(n / 10);
        let s = nat_text(n);
        assert(s.drop_last() =~= nat_text(n / 10));
        assert forall|i: int| 0 <= i < s.len() implies is_digit(#[trigger] s[i]) by {
            if i < s.len() - 1 {
                assert(s[i] == nat_text(n / 10)[i]);
            }
        }
    }
}

/// The digit character of a value below ten.
pub fn digit_char(d: u8) -> (c: char)
    requires
        d < 10,
    ensures
        c == digit_of(d as int),
{
    (48u8 + d) as char
}

/// A `u128` as decimal text.
pub fn u128_text(n: u128) -> (r: String)
    ensures
        r@ == nat_text(n as nat),
    decreases n,
{
    let d: u8 = (n % 10) as u8;
    if n < 10 {
        let mut r: String = String::new();
        r.push(digit_char(d));
        proof {
            assert(r@ =~= nat_text(n as nat));
        }
        r
    } else {
        let mut r: String = u128_text(n / 10);
        r.push(digit_char(d));
        r
    }
}

/// A `usize` as decimal text.
pub fn usize_text(n: usize) -> (r: String)
    ensures
        r@ == nat_text(n as nat),
{
    u128_text(n as u128)
}

/// An `i128` as decimal text.
pub fn i128_text(n: i128) -> (r: String)
    requires
        n > i128::MIN,
    ensures
        r@ == int_text(n as int),
{
    if n < 0 {
        cat2("-", &u128_text((-n) as u128))
    } else {
        u128_text(n as u128)
    }
}

/// An `i64` as decimal text.
pub fn i64_text(n: i64) -> (r: String)
    ensures
        r@ == int_text(n as int),
{
    i128_text(n as i128)
}

} // verus!
