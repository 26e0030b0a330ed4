//! The big-number type of `num_bigint` and the operations on it that the
//! library uses. Nothing here is proved: each function states what the
//! `num_bigint` operation it calls is documented to do.

use vstd::prelude::*;
use vstd::arithmetic::power::pow;
use vstd::arithmetic::power2::pow2;
use num_bigint::BigUint;
use crate::text::decimal_text;

verus! {

#[verifier::external_type_specification]
#[verifier::external_body]
pub struct ExBigUint(num_bigint::BigUint);

/// The natural number that a `BigUint` stands for.
pub uninterp spec fn value(n: BigUint) -> nat;

/// `BigUint::from` on a `u64`: the big number with the same value.
#[verifier::external_body]
pub(crate) fn big_from_u64(n: u64) -> (r: BigUint)
    ensures
        value(r) == n,
{
    BigUint::from(n)
}

/// `&BigUint + &BigUint`: the sum.
#[verifier::external_body]
pub(crate) fn big_add(a: &BigUint, b: &BigUint) -> (r: BigUint)
    ensures
        value(r) == value(*a) + value(*b),
{
    a + b
}

/// `&BigUint - &BigUint`: the difference. The operator panics where the
/// result would be negative, so that case is excluded.
#[verifier::external_body]
pub(crate) fn big_sub(a: &BigUint, b: &BigUint) -> (r: BigUint)
    requires
        value(*b) <= value(*a),
    ensures
        value(r) == value(*a) - value(*b),
{
    a - b
}

/// `&BigUint * &BigUint`: the product.
#[verifier::external_body]
pub(crate) fn big_mul(a: &BigUint, b: &BigUint) -> (r: BigUint)
    ensures
        value(r) == value(*a) * value(*b),
{
    a * b
}

/// `&BigUint / &BigUint`: the quotient, rounded down. The operator panics
/// on a zero divisor, so that case is excluded.
#[verifier::external_body]
pub(crate) fn big_div(a: &BigUint, b: &BigUint) -> (r: BigUint)
    requires
        value(*b) > 0,
    ensures
        value(r) == value(*a) / value(*b),
{
    a / b
}

/// `BigUint::pow`: the base raised to a `u32` exponent.
#[verifier::external_body]
pub(crate) fn big_pow(base: &BigUint, exponent: u32) -> (r: BigUint)
    ensures
        value(r) == pow(value(*base) as int, exponent as nat),
{
    base.pow(exponent)
}

/// `<` on two `BigUint`s: the order of their values.
#[verifier::external_body]
pub(crate) fn big_lt(a: &BigUint, b: &BigUint) -> (r: bool)
    ensures
        r == (value(*a) < value(*b)),
{
    a < b
}

/// `BigUint::bits`: the fewest bits that can express the number, which is
/// 0 for zero and otherwise the `r` with `2^(r-1) <= n < 2^r`.
#[verifier::external_body]
pub(crate) fn big_bits(n: &BigUint) -> (r: u64)
    ensures
        value(*n) < pow2(r as nat),
        r > 0 ==> pow2((r - 1) as nat) <= value(*n),
{
    n.bits()
}

/// `u64::try_from` on a `&BigUint`: the value where it fits in 64 bits,
/// nothing where it does not.
#[verifier::external_body]
pub(crate) fn big_to_u64(n: &BigUint) -> (r: Option<u64>)
    ensures
        r == (if value(*n) <= u64::MAX { Some(value(*n) as u64) } else { None::<u64> }),
{
    u64::try_from(n).ok()
}

/// `to_string` on a `BigUint`: its decimal digits, most significant first,
/// without sign, padding or leading zeros; `"0"` for zero.
#[verifier::external_body]
pub(crate) fn big_to_string(n: &BigUint) -> (r: String)
    ensures
        r@ == decimal_text(value(*n)),
{
    n.to_string()
}

} // verus!
