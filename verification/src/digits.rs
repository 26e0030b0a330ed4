//! Powers of ten, the number of decimal digits of a natural number, and
//! its five leading digits.

use vstd::prelude::*;
use vstd::arithmetic::power::{pow, lemma_pow0, lemma_pow_adds, lemma_pow1};
use vstd::arithmetic::power2::{pow2, lemma_pow2_unfold, lemma_pow2_strictly_increases};
use vstd::arithmetic::div_mod::lemma_div_denominator;
use crate::text::decimal_text;

verus! {

/// Ten to the power `e`.
pub open spec fn pow10(e: nat) -> nat
    decreases e,
{
    if e == 0 {
        1
    } else {
        10 * pow10((e - 1) as nat)
    }
}

/// The number of decimal digits of `v`; zero has one digit.
pub open spec fn digit_count(v: nat) -> nat
    decreases v,
{
    if v < 10 {
        1
    } else {
        1 + digit_count(v / 10)
    }
}

/// The exponent of `v` in scientific notation: its digit count less one.
pub open spec fn decimal_exponent(v: nat) -> nat {
    (digit_count(v) - 1) as nat
}

/// The five most significant decimal digits of `v` as a number: what is
/// left of `v` when all digits after the fifth are cut off. A value with
/// fewer than five digits is filled up with zeros on the right.
pub open spec fn leading_digits(v: nat) -> nat {
    let d = digit_count(v);
    if d >= 5 {
        v / pow10((d - 5) as nat)
    } else {
        v * pow10((5 - d) as nat)
    }
}

/// `pow10` is vstd's `pow` with base ten.
pub proof fn lemma_pow10_is_pow(e: nat)
    ensures
        pow10(e) == pow(10, e),
    decreases e,
{
    if e == 0 {
        lemma_pow0(10);
    } else {
        lemma_pow10_is_pow((e - 1) as nat);
        lemma_pow_adds(10, 1, (e - 1) as nat);
        lemma_pow1(10);
        assert(1 + (e - 1) as nat == e);
    }
}

/// Powers of ten multiply by adding their exponents.
pub proof fn lemma_pow10_adds(a: nat, b: nat)
    ensures
        pow10(a + b) == pow10(a) * pow10(b),
        pow10(a) > 0,
    decreases a,
{
    if a == 0 {
        assert(pow10(0 + b) == 1 * pow10(b));
    } else {
        let p = (a - 1) as nat;
        lemma_pow10_adds(p, b);
        assert(pow10(a + b) == 10 * pow10((a + b - 1) as nat));
        assert((a + b - 1) as nat == p + b);
        assert(10 * (pow10(p) * pow10(b)) == (10 * pow10(p)) * pow10(b)) by (nonlinear_arith);
    }
}

/// Powers of ten grow with their exponents.
pub proof fn lemma_pow10_increases(a: nat, b: nat)
    requires
        a <= b,
    ensures
        pow10(a) <= pow10(b),
    decreases b,
{
    if a < b {
        lemma_pow10_increases(a, (b - 1) as nat);
    }
}

/// The decimal text of a number has as many characters as the number has
/// digits.
pub proof fn lemma_decimal_text_len(n: nat)
    ensures
        decimal_text(n).len() == digit_count(n),
    decreases n,
{
    if n >= 10 {
        lemma_decimal_text_len(n / 10);
    }
}

/// A power of ten is at least the same power of two.
pub proof fn lemma_pow10_above_pow2(e: nat)
    ensures
        pow2(e) <= pow10(e),
    decreases e,
{
    if e == 0 {
        assert(pow2(0) == 1) by {
            vstd::arithmetic::power2::lemma2_to64();
        }
    } else {
        lemma_pow10_above_pow2((e - 1) as nat);
        lemma_pow2_unfold(e);
    }
}

/// A value that reaches `10^k` and stays below `2^b` has `k < b`.
pub proof fn lemma_exponent_below_bits(v: nat, k: nat, b: nat)
    requires
        pow10(k) <= v,
        v < pow2(b),
    ensures
        k < b,
{
    lemma_pow10_above_pow2(k);
    if b < k {
        lemma_pow2_strictly_increases(b, k);
    }
}

/// A value between two neighbouring powers of ten has as many digits as
/// the upper one has zeros.
pub proof fn lemma_digit_count_between(v: nat, e: nat)
    requires
        pow10(e) <= v,
        v < pow10(e + 1),
    ensures
        digit_count(v) == e + 1,
    decreases e,
{
    assert(pow10(e + 1) == 10 * pow10(e));
    if e > 0 {
        assert(pow10(e) == 10 * pow10((e - 1) as nat));
        lemma_digit_count_between(v / 10, (e - 1) as nat);
    } else {
        assert(pow10(1) == 10 * pow10(0));
    }
}

/// Every positive value lies between the powers of ten that its digit
/// count names: `10^(d-1) <= v < 10^d`.
pub proof fn lemma_digit_count_range(v: nat)
    requires
        v > 0,
    ensures
        pow10(decimal_exponent(v)) <= v,
        v < pow10(digit_count(v)),
    decreases v,
{
    if v < 10 {
        assert(pow10(1) == 10 * pow10(0));
    } else {
        lemma_digit_count_range(v / 10);
        let d = digit_count(v / 10);
        assert(pow10(d) == 10 * pow10((d - 1) as nat));
        assert(pow10(d + 1) == 10 * pow10(d));
    }
}

/// Cutting a value down to five digits: where `v / 10^s` has exactly five
/// digits, it is the leading digits of `v`, and `v` has `s + 5` digits.
pub proof fn lemma_leading_of_quotient(v: nat, s: nat, lead: nat)
    requires
        lead == v / pow10(s),
        10000 <= lead < 100000,
    ensures
        digit_count(v) == s + 5,
        leading_digits(v) == lead,
{
    let p = pow10(s);
    lemma_pow10_adds(s, 4);
    lemma_pow10_adds(s, 5);
    lemma_pow10_values();
    assert(p * 10000 <= v && v < p * 100000) by (nonlinear_arith)
        requires
            p > 0,
            lead == v / p,
            10000 <= lead < 100000,
    ;
    lemma_digit_count_between(v, s + 4);
    assert((s + 5 - 5) as nat == s);
}

/// Filling a value up to five digits: where `v * 10^k` has exactly five
/// digits, it is the leading digits of `v`, and `v` has `5 - k` digits.
pub proof fn lemma_leading_of_product(v: nat, k: nat, lead: nat)
    requires
        k <= 4,
        lead == v * pow10(k),
        10000 <= lead < 100000,
    ensures
        digit_count(v) == 5 - k,
        leading_digits(v) == lead,
{
    let p = pow10(k);
    let q = pow10((4 - k) as nat);
    lemma_pow10_adds(k, (4 - k) as nat);
    assert(k + (4 - k) as nat == 4);
    lemma_pow10_values();
    assert(pow10((4 - k) as nat + 1) == 10 * q);
    assert(q <= v && v < 10 * q) by (nonlinear_arith)
        requires
            p > 0,
            p * q == 10000,
            10000 <= v * p < 100000,
    ;
    lemma_digit_count_between(v, (4 - k) as nat);
    if k == 0 {
        assert(p == 1);
        assert(lead == v) by (nonlinear_arith)
            requires
                lead == v * p,
                p == 1,
        ;
        assert((digit_count(v) - 5) as nat == 0);
    } else {
        assert((5 - digit_count(v)) as nat == k);
    }
}

/// The first few powers of ten.
pub proof fn lemma_pow10_values()
    ensures
        pow10(0) == 1,
        pow10(1) == 10,
        pow10(2) == 100,
        pow10(3) == 1000,
        pow10(4) == 10000,
        pow10(5) == 100000,
{
    reveal_with_fuel(pow10, 6);
}

/// Dividing by a power of ten and then by ten divides by the next power.
pub proof fn lemma_pow10_div_step(v: nat, s: nat)
    ensures
        (v / pow10(s)) / 10 == v / pow10(s + 1),
{
    lemma_pow10_adds(s, 1);
    lemma_pow10_values();
    lemma_div_denominator(v as int, pow10(s) as int, 10);
}

/// The leading digits of a positive value are a five-digit number, and
/// they are cut off, not rounded: with `d` digits in `v` and `d >= 5`, the
/// value lies from `lead * 10^(d-5)` up to, but not at, `(lead + 1) * 10^(d-5)`.
pub proof fn lemma_leading_digits_truncate(v: nat)
    requires
        v > 0,
    ensures
        10000 <= leading_digits(v) < 100000,
        digit_count(v) >= 5 ==> leading_digits(v) * pow10((digit_count(v) - 5) as nat) <= v
            < (leading_digits(v) + 1) * pow10((digit_count(v) - 5) as nat),
        digit_count(v) < 5 ==> leading_digits(v) == v * pow10((5 - digit_count(v)) as nat),
{
    lemma_digit_count_range(v);
    lemma_pow10_values();
    let d = digit_count(v);
    if d >= 5 {
        let s = (d - 5) as nat;
        let p = pow10(s);
        lemma_pow10_adds(s, 4);
        lemma_pow10_adds(s, 5);
        assert(s + 4 == decimal_exponent(v));
        assert(s + 5 == d);
        let lead = v / p;
        assert(10000 <= lead && lead < 100000 && lead * p <= v && v < (lead + 1) * p)
            by (nonlinear_arith)
            requires
                p > 0,
                lead == v / p,
                p * 10000 <= v,
                v < p * 100000,
        ;
    } else {
        let k = (5 - d) as nat;
        let p = pow10(k);
        let q = pow10((d - 1) as nat);
        lemma_pow10_adds(k, (d - 1) as nat);
        assert(k + (d - 1) as nat == 4);
        assert(pow10(d) == 10 * q);
        assert(10000 <= v * p && v * p < 100000) by (nonlinear_arith)
            requires
                p > 0,
                p * q == 10000,
                q <= v,
                v < 10 * q,
        ;
    }
}

} // verus!
