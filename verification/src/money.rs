//! Decimal arithmetic of a compiled server, on rust_decimal. An operand is a decimal text or an
//! integer; a text that is no decimal counts as zero.
use vstd::prelude::*;
use vstd::string::*;

use crate::num::{i64_text, int_text};
use crate::resolve::opt_text;

verus! {

/// Whether a text reads as a `Decimal`.
pub uninterp spec fn is_decimal(t: Seq<char>) -> bool;

/// The sum of two decimal texts, where it fits a `Decimal`.
pub uninterp spec fn decimal_sum(a: Seq<char>, b: Seq<char>) -> Option<Seq<char>>;

/// The difference of two decimal texts, where it fits a `Decimal`.
pub uninterp spec fn decimal_difference(a: Seq<char>, b: Seq<char>) -> Option<Seq<char>>;

/// The product of two decimal texts, where it fits a `Decimal`.
pub uninterp spec fn decimal_product(a: Seq<char>, b: Seq<char>) -> Option<Seq<char>>;

/// Where the first of two decimal texts lies: below the second, at it, or above it.
pub uninterp spec fn decimal_side(a: Seq<char>, b: Seq<char>) -> int;

/// `Decimal::from_str`: whether a text parses, a function of the text. The text `0` does.
#[verifier::external_body]
fn parses(t: &str) -> (r: bool)
    ensures
        r == is_decimal(t@),
        t@ == "0"@ ==> r,
{
    t.parse::<rust_decimal::Decimal>().is_ok()
}

/// `Decimal::checked_add` of what two decimal texts parse to, as text: a function of both texts.
#[verifier::external_body]
fn checked_sum(a: &str, b: &str) -> (r: Option<String>)
    requires
        is_decimal(a@),
        is_decimal(b@),
    ensures
        opt_text(r) == decimal_sum(a@, b@),
{
    let x: rust_decimal::Decimal = a.parse().unwrap();
    let y: rust_decimal::Decimal = b.parse().unwrap();
    x.checked_add(y).map(|d| d.to_string())
}

/// `Decimal::checked_sub` of what two decimal texts parse to, as text: a function of both texts.
#[verifier::external_body]
fn checked_difference(a: &str, b: &str) -> (r: Option<String>)
    requires
        is_decimal(a@),
        is_decimal(b@),
    ensures
        opt_text(r) == decimal_difference(a@, b@),
{
    let x: rust_decimal::Decimal = a.parse().unwrap();
    let y: rust_decimal::Decimal = b.parse().unwrap();
    x.checked_sub(y).map(|d| d.to_string())
}

/// `Decimal::checked_mul` of what two decimal texts parse to, as text: a function of both texts.
#[verifier::external_body]
fn checked_product(a: &str, b: &str) -> (r: Option<String>)
    requires
        is_decimal(a@),
        is_decimal(b@),
    ensures
        opt_text(r) == decimal_product(a@, b@),
{
    let x: rust_decimal::Decimal = a.parse().unwrap();
    let y: rust_decimal::Decimal = b.parse().unwrap();
    x.checked_mul(y).map(|d| d.to_string())
}

/// `Decimal::cmp` of what two decimal texts parse to: minus one below, zero at, one above. It is a
/// function of both texts.
#[verifier::external_body]
fn side(a: &str, b: &str) -> (r: i8)
    requires
        is_decimal(a@),
        is_decimal(b@),
    ensures
        r == decimal_side(a@, b@),
        r == -1 || r == 0 || r == 1,
{
    let x: rust_decimal::Decimal = a.parse().unwrap();
    let y: rust_decimal::Decimal = b.parse().unwrap();
    match x.cmp(&y) {
        std::cmp::Ordering::Less => -1,
        std::cmp::Ordering::Equal => 0,
        std::cmp::Ordering::Greater => 1,
    }
}

/// A text, or zero where it is no decimal.
pub open spec fn or_zero(t: Seq<char>) -> Seq<char> {
    if is_decimal(t) {
        t
    } else {
        "0"@
    }
}

/// An operand of a decimal operation.
#[derive(Debug)]
pub enum Operand {
    Text(String),
    Int(i64),
}

impl Operand {
    /// The operand as a decimal text: zero where its text is no decimal.
    pub open spec fn text(&self) -> Seq<char> {
        match *self {
            Operand::Text(s) => or_zero(s@),
            Operand::Int(n) => or_zero(int_text(n as int)),
        }
    }

    fn as_text(&self) -> (r: String)
        ensures
            r@ == self.text(),
            is_decimal(r@),
    {
        let t = match self {
            Operand::Text(s) => s.clone(),
            Operand::Int(n) => i64_text(*n),
        };
        if parses(&t) {
            t
        } else {
            let zero = "0".to_owned();
            let ok = parses(&zero);
            zero
        }
    }
}

/// The sum of two operands, where it fits.
pub fn __dec_add(a: &Operand, b: &Operand) -> (r: Option<String>)
    ensures
        opt_text(r) == decimal_sum(a.text(), b.text()),
{
    checked_sum(&a.as_text(), &b.as_text())
}

/// The difference of two operands, where it fits.
pub fn __dec_sub(a: &Operand, b: &Operand) -> (r: Option<String>)
    ensures
        opt_text(r) == decimal_difference(a.text(), b.text()),
{
    checked_difference(&a.as_text(), &b.as_text())
}

/// The product of two operands, where it fits.
pub fn __dec_mul(a: &Operand, b: &Operand) -> (r: Option<String>)
    ensures
        opt_text(r) == decimal_product(a.text(), b.text()),
{
    checked_product(&a.as_text(), &b.as_text())
}

/// Whether the first operand is below the second.
pub fn __dec_lt(a: &Operand, b: &Operand) -> (r: bool)
    ensures
        r == (decimal_side(a.text(), b.text()) == -1),
{
    side(&a.as_text(), &b.as_text()) == -1
}

/// Whether the first operand is above the second.
pub fn __dec_gt(a: &Operand, b: &Operand) -> (r: bool)
    ensures
        r == (decimal_side(a.text(), b.text()) == 1),
{
    side(&a.as_text(), &b.as_text()) == 1
}

/// Whether the first operand is not above the second.
pub fn __dec_le(a: &Operand, b: &Operand) -> (r: bool)
    ensures
        r == (decimal_side(a.text(), b.text()) != 1),
{
    side(&a.as_text(), &b.as_text()) != 1
}

/// Whether the first operand is not below the second.
pub fn __dec_ge(a: &Operand, b: &Operand) -> (r: bool)
    ensures
        r == (decimal_side(a.text(), b.text()) != -1),
{
    side(&a.as_text(), &b.as_text()) != -1
}

} // verus!
