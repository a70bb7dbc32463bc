//! Arbitrary-precision integers.
//!
//! A `BigNum` holds a sign and a little-endian sequence of base-2^32 limbs.
//! Its mathematical value is given by `big_val`.  The arithmetic itself is
//! done by the `num-bigint` crate behind trusted wrappers whose contracts
//! state the exact integer result.

use vstd::prelude::*;

use num_bigint::BigInt;
use num_bigint::Sign;

verus! {

/// A signed arbitrary-precision integer: `negative` is the sign and
/// `limbs` are base-2^32 digits, least significant first.
#[derive(Clone, Debug)]
pub struct BigNum {
    pub negative: bool,
    pub limbs: Vec<u32>,
}

pub const LIMB_BASE: u64 = 0x1_0000_0000;

/// The natural number denoted by little-endian base-2^32 limbs.
pub open spec fn limbs_val(s: Seq<u32>) -> nat
    decreases s.len(),
{
    if s.len() == 0 {
        0
    } else {
        s[0] as nat + (LIMB_BASE as nat) * limbs_val(s.subrange(1, s.len() as int))
    }
}

/// Canonical form: no leading zero limb, and zero is never negative.
pub open spec fn big_wf(b: BigNum) -> bool {
    &&& (b.limbs@.len() == 0 || b.limbs@[b.limbs@.len() - 1] != 0)
    &&& (b.limbs@.len() == 0 ==> !b.negative)
}

/// The integer a `BigNum` stands for.
pub open spec fn big_val(b: BigNum) -> int {
    if b.negative {
        -(limbs_val(b.limbs@) as int)
    } else {
        limbs_val(b.limbs@) as int
    }
}

/// Whether an integer is representable as an `i128`.
pub open spec fn fits_i128(v: int) -> bool {
    i128::MIN as int <= v <= i128::MAX as int
}

/// Decimal digit characters.
pub open spec fn dec_digit(d: int) -> char {
    if d == 0 { '0' }
    else if d == 1 { '1' }
    else if d == 2 { '2' }
    else if d == 3 { '3' }
    else if d == 4 { '4' }
    else if d == 5 { '5' }
    else if d == 6 { '6' }
    else if d == 7 { '7' }
    else if d == 8 { '8' }
    else { '9' }
}

/// Decimal digits of a natural number, most significant first.
pub open spec fn dec_nat(n: nat) -> Seq<char>
    decreases n,
{
    if n < 10 {
        seq![dec_digit(n as int)]
    } else {
        dec_nat(n / 10).push(dec_digit((n % 10) as int))
    }
}

/// Decimal rendering of an integer, with a leading minus sign if negative.
pub open spec fn dec_str(v: int) -> Seq<char> {
    if v < 0 {
        seq!['-'] + dec_nat((-v) as nat)
    } else {
        dec_nat(v as nat)
    }
}

/// The numeric value of a run of decimal digit characters.
pub open spec fn dec_char_val(c: char) -> int {
    c as int - '0' as int
}

pub open spec fn is_dec_digit(c: char) -> bool {
    '0' <= c && c <= '9'
}

pub open spec fn dec_val(s: Seq<char>) -> int
    decreases s.len(),
{
    if s.len() == 0 {
        0
    } else {
        dec_val(s.drop_last()) * 10 + dec_char_val(s.last())
    }
}

/// The natural number denoted by big-endian base-256 bytes.
pub open spec fn be_bytes_val(bs: Seq<u8>) -> nat
    decreases bs.len(),
{
    if bs.len() == 0 {
        0
    } else {
        be_bytes_val(bs.drop_last()) * 256 + bs.last() as nat
    }
}

/// Division truncated toward zero, the rounding the language's integer
/// division uses.
pub open spec fn tdiv(a: int, b: int) -> int {
    if (a < 0) == (b < 0) {
        vstd::math::abs(a) as int / vstd::math::abs(b) as int
    } else {
        -(vstd::math::abs(a) as int / vstd::math::abs(b) as int)
    }
}

/// Remainder paired with `tdiv`; its sign follows the dividend.
pub open spec fn tmod(a: int, b: int) -> int {
    a - b * tdiv(a, b)
}

/// Integer exponentiation.
pub open spec fn int_pow(b: int, e: nat) -> int
    decreases e,
{
    if e == 0 {
        1
    } else {
        b * int_pow(b, (e - 1) as nat)
    }
}

/// A canonical limb sequence with a non-zero top limb denotes a positive
/// number.
pub proof fn lemma_limbs_val_pos(s: Seq<u32>)
    requires
        s.len() > 0,
        s[s.len() - 1] != 0,
    ensures
        limbs_val(s) > 0,
    decreases s.len(),
{
    if s.len() == 1 {
        assert(limbs_val(s) == s[0] as nat + (LIMB_BASE as nat) * limbs_val(s.subrange(1, 1)));
        assert(s.subrange(1, 1).len() == 0);
    } else {
        let rest = s.subrange(1, s.len() as int);
        assert(rest[rest.len() - 1] == s[s.len() - 1]);
        lemma_limbs_val_pos(rest);
        assert((LIMB_BASE as nat) * limbs_val(rest) > 0) by (nonlinear_arith)
            requires limbs_val(rest) > 0;
    }
}

/// A well-formed big number is zero exactly when it has no limbs.
pub proof fn lemma_big_nonzero(b: BigNum)
    requires
        big_wf(b),
    ensures
        (big_val(b) != 0) == (b.limbs@.len() != 0),
{
    if b.limbs@.len() != 0 {
        lemma_limbs_val_pos(b.limbs@);
    }
}

/// Relies on `num_bigint::BigInt::from` and `BigInt::to_u32_digits`: the
/// digits are the little-endian base-2^32 form of the argument, without
/// leading zeros, and the sign is `Minus` exactly for negative values.
#[verifier::external_body]
pub fn big_from_i128(v: i128) -> (r: BigNum)
    ensures
        big_wf(r),
        big_val(r) == v as int,
{
    let (sign, limbs) = BigInt::from(v).to_u32_digits();
    BigNum { negative: matches!(sign, Sign::Minus), limbs }
}

/// Relies on `num_bigint::BigInt::from_slice` and `i128::try_from`, which
/// succeeds exactly when the value is in the `i128` range.
#[verifier::external_body]
pub fn big_to_i128(b: &BigNum) -> (r: Option<i128>)
    ensures
        match r {
            Some(v) => big_val(*b) == v as int,
            None => !fits_i128(big_val(*b)),
        },
{
    let sign = if b.negative { Sign::Minus } else { Sign::Plus };
    let big = BigInt::from_slice(sign, &b.limbs);
    i128::try_from(&big).ok()
}

/// Relies on `num_bigint::BigInt::eq`, which compares sign and magnitude:
/// two big integers are equal exactly when they denote the same integer.
#[verifier::external_body]
pub fn big_eq(a: &BigNum, b: &BigNum) -> (r: bool)
    ensures
        r == (big_val(*a) == big_val(*b)),
{
    let sa = if a.negative { Sign::Minus } else { Sign::Plus };
    let sb = if b.negative { Sign::Minus } else { Sign::Plus };
    let x = BigInt::from_slice(sa, &a.limbs);
    let y = BigInt::from_slice(sb, &b.limbs);
    x == y
}

/// Relies on `num_bigint::BigInt`'s `Ord`, which orders by sign and then
/// by magnitude: the numeric order.
#[verifier::external_body]
pub fn big_lt(a: &BigNum, b: &BigNum) -> (r: bool)
    ensures
        r == (big_val(*a) < big_val(*b)),
{
    let sa = if a.negative { Sign::Minus } else { Sign::Plus };
    let sb = if b.negative { Sign::Minus } else { Sign::Plus };
    let x = BigInt::from_slice(sa, &a.limbs);
    let y = BigInt::from_slice(sb, &b.limbs);
    x < y
}

pub fn big_le(a: &BigNum, b: &BigNum) -> (r: bool)
    ensures
        r == (big_val(*a) <= big_val(*b)),
{
    !big_lt(b, a)
}

/// Relies on `num_bigint::BigInt::add`.
#[verifier::external_body]
pub fn big_add(a: &BigNum, b: &BigNum) -> (r: BigNum)
    ensures
        big_wf(r),
        big_val(r) == big_val(*a) + big_val(*b),
{
    let sa = if a.negative { Sign::Minus } else { Sign::Plus };
    let sb = if b.negative { Sign::Minus } else { Sign::Plus };
    let x = BigInt::from_slice(sa, &a.limbs);
    let y = BigInt::from_slice(sb, &b.limbs);
    let z = x + y;
    let (sign, limbs) = z.to_u32_digits();
    BigNum { negative: matches!(sign, Sign::Minus), limbs }
}

/// Relies on `num_bigint::BigInt::sub`.
#[verifier::external_body]
pub fn big_sub(a: &BigNum, b: &BigNum) -> (r: BigNum)
    ensures
        big_wf(r),
        big_val(r) == big_val(*a) - big_val(*b),
{
    let sa = if a.negative { Sign::Minus } else { Sign::Plus };
    let sb = if b.negative { Sign::Minus } else { Sign::Plus };
    let x = BigInt::from_slice(sa, &a.limbs);
    let y = BigInt::from_slice(sb, &b.limbs);
    let z = x - y;
    let (sign, limbs) = z.to_u32_digits();
    BigNum { negative: matches!(sign, Sign::Minus), limbs }
}

/// Relies on `num_bigint::BigInt::mul`.
#[verifier::external_body]
pub fn big_mul(a: &BigNum, b: &BigNum) -> (r: BigNum)
    ensures
        big_wf(r),
        big_val(r) == big_val(*a) * big_val(*b),
{
    let sa = if a.negative { Sign::Minus } else { Sign::Plus };
    let sb = if b.negative { Sign::Minus } else { Sign::Plus };
    let x = BigInt::from_slice(sa, &a.limbs);
    let y = BigInt::from_slice(sb, &b.limbs);
    let z = x * y;
    let (sign, limbs) = z.to_u32_digits();
    BigNum { negative: matches!(sign, Sign::Minus), limbs }
}

/// Relies on `num_bigint::BigInt::div`, which truncates toward zero.
#[verifier::external_body]
pub fn big_div(a: &BigNum, b: &BigNum) -> (r: BigNum)
    requires
        big_val(*b) != 0,
    ensures
        big_wf(r),
        big_val(r) == tdiv(big_val(*a), big_val(*b)),
{
    let sa = if a.negative { Sign::Minus } else { Sign::Plus };
    let sb = if b.negative { Sign::Minus } else { Sign::Plus };
    let x = BigInt::from_slice(sa, &a.limbs);
    let y = BigInt::from_slice(sb, &b.limbs);
    let z = x / y;
    let (sign, limbs) = z.to_u32_digits();
    BigNum { negative: matches!(sign, Sign::Minus), limbs }
}

/// Relies on `num_bigint::BigInt::rem`: the remainder of truncating
/// division, its sign following the dividend.
#[verifier::external_body]
pub fn big_rem(a: &BigNum, b: &BigNum) -> (r: BigNum)
    requires
        big_val(*b) != 0,
    ensures
        big_wf(r),
        big_val(r) == tmod(big_val(*a), big_val(*b)),
{
    let sa = if a.negative { Sign::Minus } else { Sign::Plus };
    let sb = if b.negative { Sign::Minus } else { Sign::Plus };
    let x = BigInt::from_slice(sa, &a.limbs);
    let y = BigInt::from_slice(sb, &b.limbs);
    let z = x % y;
    let (sign, limbs) = z.to_u32_digits();
    BigNum { negative: matches!(sign, Sign::Minus), limbs }
}

/// Relies on `num_bigint::BigInt::pow` (repeated multiplication).
#[verifier::external_body]
pub fn big_pow(a: &BigNum, e: u32) -> (r: BigNum)
    ensures
        big_wf(r),
        big_val(r) == int_pow(big_val(*a), e as nat),
{
    let sa = if a.negative { Sign::Minus } else { Sign::Plus };
    let x = BigInt::from_slice(sa, &a.limbs);
    let z = x.pow(e);
    let (sign, limbs) = z.to_u32_digits();
    BigNum { negative: matches!(sign, Sign::Minus), limbs }
}

/// Relies on `num_bigint::BigInt::from_str`, which accepts a run of
/// decimal digits and returns the integer they denote.
#[verifier::external_body]
pub fn big_parse_digits(s: &str) -> (r: BigNum)
    requires
        s@.len() > 0,
        forall|i: int| 0 <= i < s@.len() ==> is_dec_digit(s@[i]),
    ensures
        big_wf(r),
        big_val(r) == dec_val(s@),
        !r.negative,
{
    let z = s.parse::<BigInt>().unwrap();
    let (sign, limbs) = z.to_u32_digits();
    BigNum { negative: matches!(sign, Sign::Minus), limbs }
}

/// Relies on `num_bigint::BigInt::to_string` (via `to_str_radix`), which
/// renders the decimal digits with a leading `-` for negative values.
#[verifier::external_body]
pub fn big_to_dec(b: &BigNum) -> (r: String)
    ensures
        r@ == dec_str(big_val(*b)),
{
    let sb = if b.negative { Sign::Minus } else { Sign::Plus };
    BigInt::from_slice(sb, &b.limbs).to_string()
}

/// Relies on `num_bigint::BigInt::from_bytes_be` and `to_string`: the
/// decimal rendering of the big-endian base-256 reading of the bytes.
#[verifier::external_body]
pub fn be_bytes_to_dec(bytes: &[u8]) -> (r: String)
    ensures
        r@ == dec_str(be_bytes_val(bytes@) as int),
{
    BigInt::from_bytes_be(Sign::Plus, bytes).to_string()
}

/// Negation needs no outside help: flip the sign unless the value is zero.
pub fn big_neg(a: BigNum) -> (r: BigNum)
    requires
        big_wf(a),
    ensures
        big_wf(r),
        big_val(r) == -big_val(a),
{
    if a.limbs.len() == 0 {
        a
    } else {
        BigNum { negative: !a.negative, limbs: a.limbs }
    }
}

} // verus!
