//! Rendering a big number as text: all its digits where it is small, five
//! leading digits and a decimal exponent where it is large.

use vstd::prelude::*;
use vstd::arithmetic::power2::pow2;
use vstd::arithmetic::div_mod::lemma_div_denominator;
use num_bigint::BigUint;
use crate::natural::{value, big_from_u64, big_mul, big_div, big_pow, big_lt, big_bits, big_to_u64,
    big_to_string};
use crate::digits::{pow10, digit_count, decimal_exponent, leading_digits, lemma_pow10_is_pow,
    lemma_pow10_adds, lemma_pow10_values, lemma_pow10_div_step, lemma_pow10_increases,
    lemma_exponent_below_bits, lemma_digit_count_range, lemma_decimal_text_len,
    lemma_leading_of_quotient, lemma_leading_of_product, lemma_leading_digits_truncate};
use crate::text::{digit_char, digit_value, is_digit_char, decimal_text, grouped_text, text_value,
    digit, push_char, push_grouped, lemma_digit_char, lemma_decimal_text_exact,
    lemma_grouped_text_exact};

verus! {

/// The five leading digits as text, with a point after the first.
pub open spec fn mantissa_text(lead: nat) -> Seq<char> {
    seq![
        digit_char(lead / 10000),
        '.',
        digit_char((lead / 1000) % 10),
        digit_char((lead / 100) % 10),
        digit_char((lead / 10) % 10),
        digit_char(lead % 10),
    ]
}

/// Scientific notation of `v`: its five leading digits, cut off and not
/// rounded, then `e+` and the decimal exponent with thousands separators.
/// Zero is written `0.0e0`.
pub open spec fn scientific_text(v: nat) -> Seq<char> {
    if v == 0 {
        seq!['0', '.', '0', 'e', '0']
    } else {
        mantissa_text(leading_digits(v)) + seq!['e', '+'] + grouped_text(decimal_exponent(v))
    }
}

/// The largest value that is still written out in full: `10^35`.
pub open spec fn exact_limit() -> nat {
    100000000000000000000000000000000000
}

/// The text of `v`: all its digits up to `10^35`, scientific notation
/// above.
pub open spec fn render_text(v: nat) -> Seq<char> {
    if v > exact_limit() {
        scientific_text(v)
    } else {
        decimal_text(v)
    }
}

/// Whether `t` has the shape of scientific notation and reads back as
/// the five digits `lead` and the exponent `exponent`: one digit that is
/// not zero, a point, four digits, `e+`, and then a text of digits and
/// commas; the five digits make up `lead`, and the digits after `e+` make
/// up `exponent`.
pub open spec fn reads_as_scientific(t: Seq<char>, lead: nat, exponent: nat) -> bool {
    &&& t.len() >= 9
    &&& is_digit_char(t[0]) && t[0] != '0'
    &&& t[1] == '.'
    &&& is_digit_char(t[2]) && is_digit_char(t[3]) && is_digit_char(t[4]) && is_digit_char(t[5])
    &&& t[6] == 'e' && t[7] == '+'
    &&& forall|i: int| 8 <= i < t.len() ==> is_digit_char(#[trigger] t[i]) || t[i] == ','
    &&& digit_value(t[0]) * 10000 + digit_value(t[2]) * 1000 + digit_value(t[3]) * 100
        + digit_value(t[4]) * 10 + digit_value(t[5]) == lead
    &&& text_value(t.skip(8)) == exponent
}

/// The characters of the mantissa are digits, the first of them not zero,
/// and read back as `lead`.
proof fn lemma_mantissa_text(lead: nat)
    requires
        10000 <= lead < 100000,
    ensures
        ({
            let m = mantissa_text(lead);
            &&& m.len() == 6
            &&& is_digit_char(m[0]) && m[0] != '0'
            &&& m[1] == '.'
            &&& is_digit_char(m[2]) && is_digit_char(m[3]) && is_digit_char(m[4])
                && is_digit_char(m[5])
            &&& digit_value(m[0]) * 10000 + digit_value(m[2]) * 1000 + digit_value(m[3]) * 100
                + digit_value(m[4]) * 10 + digit_value(m[5]) == lead
        }),
{
    let d0 = lead / 10000;
    let d1 = (lead / 1000) % 10;
    let d2 = (lead / 100) % 10;
    let d3 = (lead / 10) % 10;
    let d4 = lead % 10;
    lemma_five_digits(lead);
    lemma_digit_char(d0);
    lemma_digit_char(d1);
    lemma_digit_char(d2);
    lemma_digit_char(d3);
    lemma_digit_char(d4);
    let m = mantissa_text(lead);
    assert(m[0] == digit_char(d0));
    assert(m[2] == digit_char(d1));
    assert(m[3] == digit_char(d2));
    assert(m[4] == digit_char(d3));
    assert(m[5] == digit_char(d4));
}

/// A number is the sum of its decimal digits, each times its power of ten.
proof fn lemma_five_digits(n: nat)
    requires
        n < 100000,
    ensures
        (n / 10000) * 10000 + ((n / 1000) % 10) * 1000 + ((n / 100) % 10) * 100 + ((n / 10) % 10)
            * 10 + n % 10 == n,
        n / 10000 < 10,
{
    let a = n / 10;
    let b = a / 10;
    let c = b / 10;
    let d = c / 10;
    assert(b == n / 100 && c == n / 1000 && d == n / 10000) by {
        lemma_div_denominator(n as int, 10, 10);
        lemma_div_denominator(n as int, 100, 10);
        lemma_div_denominator(n as int, 1000, 10);
    }
    assert(n == a * 10 + n % 10);
    assert(a == b * 10 + a % 10);
    assert(b == c * 10 + b % 10);
    assert(c == d * 10 + c % 10);
}

/// The scientific notation of a positive value has the shape of
/// scientific notation; its digits read back as the five leading digits
/// of the value, cut off and not rounded, and its exponent as the number
/// of the value's decimal digits less one.
pub proof fn lemma_scientific_text_shape(v: nat)
    requires
        v > 0,
    ensures
        reads_as_scientific(scientific_text(v), leading_digits(v), decimal_exponent(v)),
        decimal_exponent(v) == digit_count(v) - 1,
        10000 <= leading_digits(v) < 100000,
{
    let t = scientific_text(v);
    let lead = leading_digits(v);
    let e = decimal_exponent(v);
    lemma_leading_digits_truncate(v);
    lemma_mantissa_text(lead);
    lemma_grouped_text_exact(e);
    let m = mantissa_text(lead);
    assert(t.skip(8) =~= grouped_text(e));
    assert(t[0] == m[0] && t[1] == m[1] && t[2] == m[2] && t[3] == m[3] && t[4] == m[4] && t[5]
        == m[5]);
    assert forall|i: int| 8 <= i < t.len() implies is_digit_char(#[trigger] t[i]) || t[i]
        == ',' by {
        assert(t[i] == grouped_text(e)[i - 8]);
    }
}

/// Up to the limit of `10^35` the text is exact: it is the decimal text
/// of the value, made of digits only, without leading zeros, and reads
/// back as the value. Zero is written `0`.
pub proof fn lemma_render_text_exact(v: nat)
    requires
        v <= exact_limit(),
    ensures
        render_text(v) == decimal_text(v),
        render_text(v).len() == digit_count(v),
        forall|i: int| 0 <= i < render_text(v).len() ==> is_digit_char(#[trigger] render_text(v)[i]),
        text_value(render_text(v)) == v,
        (render_text(v)[0] == '0') == (v == 0),
        v == 0 ==> render_text(v) == seq!['0'],
{
    lemma_decimal_text_exact(v);
    lemma_decimal_text_len(v);
}

/// Above the limit of `10^35` the text is scientific notation of the five
/// leading digits, cut off and not rounded, with the exponent one less
/// than the number of decimal digits, which is 35 at least.
pub proof fn lemma_render_text_scientific(v: nat)
    requires
        v > exact_limit(),
    ensures
        render_text(v) == scientific_text(v),
        reads_as_scientific(render_text(v), leading_digits(v), decimal_exponent(v)),
        decimal_exponent(v) == digit_count(v) - 1,
        decimal_exponent(v) >= 35,
{
    lemma_scientific_text_shape(v);
    lemma_digit_count_range(v);
    lemma_exact_limit_is_power();
    let d = digit_count(v);
    if d < 36 {
        lemma_pow10_increases(d, 35);
    }
}

/// The limit is the 35th power of ten.
pub proof fn lemma_exact_limit_is_power()
    ensures
        exact_limit() == pow10(35),
{
    reveal_with_fuel(pow10, 36);
}

/// The text depends on nothing but the value: two numbers of the same
/// value, or one number rendered twice, give the same text.
pub proof fn lemma_render_text_repeats(a: BigUint, b: BigUint)
    requires
        value(a) == value(b),
    ensures
        render_text(value(a)) == render_text(value(b)),
        scientific_text(value(a)) == scientific_text(value(b)),
{
}

/// An estimate of the decimal exponent of a number with `bits` binary
/// digits: `bits` times the decimal logarithm of two, taken as 0.30103.
pub fn estimated_exponent(bits: u64) -> (r: u64)
    ensures
        r == (bits * 30103) / 100000,
{
    let wide: u128 = (bits as u128) * 30103;
    (wide / 100000) as u64
}

/// Ten to the power `e`.
pub fn power_of_ten(e: u64) -> (r: BigUint)
    ensures
        value(r) == pow10(e as nat),
{
    let ten = big_from_u64(10);
    let mut acc = big_from_u64(1);
    let mut left: u64 = e;
    while left > 0xffff_ffff
        invariant
            left <= e,
            value(ten) == 10,
            value(acc) * pow10(left as nat) == pow10(e as nat),
        decreases left,
    {
        let chunk = big_pow(&ten, 0xffff_ffffu32);
        proof {
            lemma_pow10_is_pow(0xffff_ffff);
            lemma_pow10_adds(0xffff_ffff, (left - 0xffff_ffff) as nat);
            let a = value(acc);
            let c = pow10(0xffff_ffff);
            let d = pow10((left - 0xffff_ffff) as nat);
            assert(0xffff_ffff + (left - 0xffff_ffff) as nat == left as nat);
            assert((a * c) * d == a * (c * d)) by (nonlinear_arith);
        }
        acc = big_mul(&acc, &chunk);
        left = left - 0xffff_ffff;
    }
    let last = big_pow(&ten, left as u32);
    proof {
        lemma_pow10_is_pow(left as nat);
    }
    big_mul(&acc, &last)
}

/// The five leading digits of a positive number and its decimal exponent.
///
/// The exponent is first estimated from the number of bits. The number is
/// divided by the power of ten that should leave five or six digits; where
/// fewer are left the power is lowered, where more are left they are cut
/// off one by one, and a number of fewer than five digits is filled up
/// with zeros.
pub fn leading_and_exponent(number: &BigUint) -> (r: (u64, u64))
    requires
        value(*number) > 0,
    ensures
        r.0 == leading_digits(value(*number)),
        r.1 == decimal_exponent(value(*number)),
{
    let ghost v = value(*number);
    let bits = big_bits(number);
    let low = big_from_u64(10000);
    let high = big_from_u64(100000);
    let ten = big_from_u64(10);
    let estimate = estimated_exponent(bits);
    let mut shift: u64 = if estimate > 5 { estimate - 5 } else { 0 };
    let mut divisor = power_of_ten(shift);
    proof {
        lemma_pow10_adds(shift as nat, 0);
    }
    let mut lead = big_div(number, &divisor);
    while shift > 0 && big_lt(&lead, &low)
        invariant
            v == value(*number),
            value(low) == 10000,
            value(lead) == v / pow10(shift as nat),
        decreases shift,
    {
        shift = shift - 1;
        divisor = power_of_ten(shift);
        proof {
            lemma_pow10_adds(shift as nat, 0);
        }
        lead = big_div(number, &divisor);
    }
    while !big_lt(&lead, &high)
        invariant
            v == value(*number),
            v < pow2(bits as nat),
            value(low) == 10000,
            value(high) == 100000,
            value(ten) == 10,
            value(lead) == v / pow10(shift as nat),
            shift == 0 || value(lead) >= 10000,
        decreases value(lead),
    {
        proof {
            lemma_quotient_reached(v, shift as nat, 100000);
            lemma_pow10_adds(shift as nat, 5);
            lemma_pow10_values();
            lemma_exponent_below_bits(v, shift as nat + 5, bits as nat);
            lemma_pow10_div_step(v, shift as nat);
        }
        lead = big_div(&lead, &ten);
        shift = shift + 1;
    }
    let cut: u64 = match big_to_u64(&lead) {
        Some(small) => small,
        None => {
            proof {
                assert(false);
            }
            0
        },
    };
    if cut >= 10000 {
        proof {
            lemma_leading_of_quotient(v, shift as nat, cut as nat);
            lemma_quotient_reached(v, shift as nat, 10000);
            lemma_pow10_adds(shift as nat, 4);
            lemma_pow10_values();
            lemma_exponent_below_bits(v, shift as nat + 4, bits as nat);
        }
        (cut, shift + 4)
    } else {
        let mut filled: u64 = cut;
        let mut exponent: u64 = 4;
        proof {
            lemma_pow10_values();
            assert(v / 1 == v);
            assert(v * 1 == v);
        }
        while filled < 10000
            invariant
                v > 0,
                exponent <= 4,
                filled == v * pow10((4 - exponent) as nat),
                filled < 100000,
            decreases 100000 - filled,
        {
            proof {
                let k = (4 - exponent) as nat;
                lemma_pow10_adds(k, 1);
                lemma_pow10_values();
                let p = pow10(k);
                assert(v * (p * 10) == (v * p) * 10) by (nonlinear_arith);
                assert(v * p >= p) by (nonlinear_arith)
                    requires
                        v >= 1,
                        p >= 0,
                ;
                if exponent == 0 {
                    assert(p == 10000);
                }
                assert((4 - (exponent - 1)) as nat == k + 1);
            }
            filled = filled * 10;
            exponent = exponent - 1;
        }
        proof {
            lemma_leading_of_product(v, (4 - exponent) as nat, filled as nat);
        }
        (filled, exponent)
    }
}

/// Where the quotient of `v` by a power of ten reaches `bound`, `v`
/// reaches `bound` times that power.
proof fn lemma_quotient_reached(v: nat, s: nat, bound: nat)
    requires
        v / pow10(s) >= bound,
    ensures
        v >= pow10(s) * bound,
{
    lemma_pow10_adds(s, 0);
    let p = pow10(s);
    assert(v >= p * bound) by (nonlinear_arith)
        requires
            p > 0,
            v / p >= bound,
    ;
}

/// The text of five leading digits and a decimal exponent.
pub fn format_scientific(lead: u64, exponent: u64) -> (r: String)
    requires
        10000 <= lead < 100000,
    ensures
        r@ == mantissa_text(lead as nat) + seq!['e', '+'] + grouped_text(exponent as nat),
{
    let mut s = String::new();
    push_char(&mut s, digit(lead / 10000));
    push_char(&mut s, '.');
    push_char(&mut s, digit((lead / 1000) % 10));
    push_char(&mut s, digit((lead / 100) % 10));
    push_char(&mut s, digit((lead / 10) % 10));
    push_char(&mut s, digit(lead % 10));
    push_char(&mut s, 'e');
    push_char(&mut s, '+');
    assert(s@ =~= mantissa_text(lead as nat) + seq!['e', '+']);
    push_grouped(&mut s, exponent);
    s
}

/// The number in scientific notation with five significant digits, such
/// as `4.3466e+208`; the digits are cut off, not rounded.
pub fn scientific_notation(number: &BigUint) -> (r: String)
    ensures
        r@ == scientific_text(value(*number)),
{
    let zero = big_from_u64(0);
    if !big_lt(&zero, number) {
        let mut s = String::new();
        push_char(&mut s, '0');
        push_char(&mut s, '.');
        push_char(&mut s, '0');
        push_char(&mut s, 'e');
        push_char(&mut s, '0');
        assert(s@ =~= seq!['0', '.', '0', 'e', '0']);
        return s;
    }
    let (lead, exponent) = leading_and_exponent(number);
    proof {
        lemma_leading_digits_truncate(value(*number));
    }
    format_scientific(lead, exponent)
}

/// Whether the number is written in scientific notation: whether it is
/// greater than `10^35`.
pub fn uses_scientific_notation(number: &BigUint) -> (r: bool)
    ensures
        r == (value(*number) > exact_limit()),
{
    let limit = power_of_ten(35);
    proof {
        lemma_exact_limit_is_power();
    }
    big_lt(&limit, number)
}

/// The number as text: all its decimal digits where it is at most
/// `10^35`, scientific notation with five significant digits above.
pub fn render(number: &BigUint) -> (r: String)
    ensures
        r@ == render_text(value(*number)),
{
    if uses_scientific_notation(number) {
        scientific_notation(number)
    } else {
        big_to_string(number)
    }
}

} // verus!
