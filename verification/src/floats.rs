//! Decimal floating-point values.
//!
//! The language's float values are carried as their canonical decimal
//! rendering, produced by the `num-bigfloat` crate.  Every operation on
//! them is a pure function of that text, so each gets an uninterpreted
//! name here: the trusted wrappers state that the crate's result is the
//! named function of the operand texts, and the evaluator's contracts
//! speak of those names.  A text that does not parse is treated as NaN.

use vstd::prelude::*;

use core::str::FromStr;
use num_bigfloat::BigFloat;

verus! {

/// The canonical text of the float a literal denotes.
pub uninterp spec fn float_of_lit(s: Seq<char>) -> Seq<char>;

pub uninterp spec fn float_add_of(a: Seq<char>, b: Seq<char>) -> Seq<char>;

pub uninterp spec fn float_sub_of(a: Seq<char>, b: Seq<char>) -> Seq<char>;

pub uninterp spec fn float_mul_of(a: Seq<char>, b: Seq<char>) -> Seq<char>;

pub uninterp spec fn float_div_of(a: Seq<char>, b: Seq<char>) -> Seq<char>;

pub uninterp spec fn float_rem_of(a: Seq<char>, b: Seq<char>) -> Seq<char>;

pub uninterp spec fn float_pow_of(a: Seq<char>, b: Seq<char>) -> Seq<char>;

pub uninterp spec fn float_neg_of(a: Seq<char>) -> Seq<char>;

pub uninterp spec fn float_lt_of(a: Seq<char>, b: Seq<char>) -> bool;

pub uninterp spec fn float_le_of(a: Seq<char>, b: Seq<char>) -> bool;

/// Whether the float is truthy: neither NaN nor infinite nor zero.
pub uninterp spec fn float_truthy_of(a: Seq<char>) -> bool;

/// The text of the float narrowed to an `f64`.
pub uninterp spec fn float_f64_str_of(a: Seq<char>) -> Seq<char>;

/// Relies on `num_bigfloat::BigFloat::parse` and its `Display`: the
/// canonical text of the parsed value.
#[verifier::external_body]
pub fn float_parse(s: &str) -> (r: String)
    ensures
        r@ == float_of_lit(s@),
{
    let v = BigFloat::parse(s).unwrap_or(num_bigfloat::NAN);
    v.to_string()
}

/// Relies on `num_bigfloat::BigFloat::add`.
#[verifier::external_body]
pub fn float_add(a: &str, b: &str) -> (r: String)
    ensures
        r@ == float_add_of(a@, b@),
{
    let x = BigFloat::from_str(a).unwrap_or(num_bigfloat::NAN);
    let y = BigFloat::from_str(b).unwrap_or(num_bigfloat::NAN);
    (x + y).to_string()
}

/// Relies on `num_bigfloat::BigFloat::sub`.
#[verifier::external_body]
pub fn float_sub(a: &str, b: &str) -> (r: String)
    ensures
        r@ == float_sub_of(a@, b@),
{
    let x = BigFloat::from_str(a).unwrap_or(num_bigfloat::NAN);
    let y = BigFloat::from_str(b).unwrap_or(num_bigfloat::NAN);
    (x - y).to_string()
}

/// Relies on `num_bigfloat::BigFloat::mul`.
#[verifier::external_body]
pub fn float_mul(a: &str, b: &str) -> (r: String)
    ensures
        r@ == float_mul_of(a@, b@),
{
    let x = BigFloat::from_str(a).unwrap_or(num_bigfloat::NAN);
    let y = BigFloat::from_str(b).unwrap_or(num_bigfloat::NAN);
    (x * y).to_string()
}

/// Relies on `num_bigfloat::BigFloat::div`.
#[verifier::external_body]
pub fn float_div(a: &str, b: &str) -> (r: String)
    ensures
        r@ == float_div_of(a@, b@),
{
    let x = BigFloat::from_str(a).unwrap_or(num_bigfloat::NAN);
    let y = BigFloat::from_str(b).unwrap_or(num_bigfloat::NAN);
    (x / y).to_string()
}

/// Relies on `num_bigfloat::BigFloat::rem`.
#[verifier::external_body]
pub fn float_rem(a: &str, b: &str) -> (r: String)
    ensures
        r@ == float_rem_of(a@, b@),
{
    let x = BigFloat::from_str(a).unwrap_or(num_bigfloat::NAN);
    let y = BigFloat::from_str(b).unwrap_or(num_bigfloat::NAN);
    (x % y).to_string()
}

/// Relies on `num_bigfloat::BigFloat::pow`.
#[verifier::external_body]
pub fn float_pow(a: &str, b: &str) -> (r: String)
    ensures
        r@ == float_pow_of(a@, b@),
{
    let x = BigFloat::from_str(a).unwrap_or(num_bigfloat::NAN);
    let y = BigFloat::from_str(b).unwrap_or(num_bigfloat::NAN);
    x.pow(&y).to_string()
}

/// Relies on `num_bigfloat::BigFloat::neg`.
#[verifier::external_body]
pub fn float_neg(a: &str) -> (r: String)
    ensures
        r@ == float_neg_of(a@),
{
    let x = BigFloat::from_str(a).unwrap_or(num_bigfloat::NAN);
    (-x).to_string()
}

/// Relies on `num_bigfloat::BigFloat::partial_cmp` (strictly less).
#[verifier::external_body]
pub fn float_lt(a: &str, b: &str) -> (r: bool)
    ensures
        r == float_lt_of(a@, b@),
{
    let x = BigFloat::from_str(a).unwrap_or(num_bigfloat::NAN);
    let y = BigFloat::from_str(b).unwrap_or(num_bigfloat::NAN);
    x < y
}

/// Relies on `num_bigfloat::BigFloat::partial_cmp` (less or equal).
#[verifier::external_body]
pub fn float_le(a: &str, b: &str) -> (r: bool)
    ensures
        r == float_le_of(a@, b@),
{
    let x = BigFloat::from_str(a).unwrap_or(num_bigfloat::NAN);
    let y = BigFloat::from_str(b).unwrap_or(num_bigfloat::NAN);
    x <= y
}

/// Relies on `num_bigfloat::BigFloat::is_nan`, `is_inf` and `eq`: truthy
/// means neither NaN nor infinite nor equal to zero.
#[verifier::external_body]
pub fn float_truthy(a: &str) -> (r: bool)
    ensures
        r == float_truthy_of(a@),
{
    let x = BigFloat::from_str(a).unwrap_or(num_bigfloat::NAN);
    !x.is_nan() && !x.is_inf() && x != num_bigfloat::ZERO
}

/// Relies on `num_bigfloat::BigFloat::to_f64` and `f64::to_string`.
#[verifier::external_body]
pub fn float_f64_str(a: &str) -> (r: String)
    ensures
        r@ == float_f64_str_of(a@),
{
    let x = BigFloat::from_str(a).unwrap_or(num_bigfloat::NAN);
    x.to_f64().to_string()
}

} // verus!
