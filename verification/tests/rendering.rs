use bigfib::render::{estimated_exponent, format_scientific, leading_and_exponent, power_of_ten};
use bigfib::text::{digit, push_decimal, push_grouped};
use bigfib::{calculate_fibonacci, render, scientific_notation, thousands_separator,
    uses_scientific_notation};
use num_bigint::BigUint;

fn big(n: u64) -> BigUint {
    BigUint::from(n)
}

fn parse(digits: &str) -> BigUint {
    BigUint::parse_bytes(digits.as_bytes(), 10).unwrap()
}

fn ten_to(e: u32) -> BigUint {
    big(10).pow(e)
}

/// Scientific notation read off the full decimal text.
fn reference(n: &BigUint) -> String {
    let mut digits = n.to_string();
    let exponent = (digits.len() - 1) as u64;
    while digits.len() < 5 {
        digits.push('0');
    }
    format!("{}.{}e+{}", &digits[..1], &digits[1..5], thousands_separator(exponent))
}

#[test]
fn separator_groups_by_three() {
    assert_eq!(thousands_separator(0), "0");
    assert_eq!(thousands_separator(7), "7");
    assert_eq!(thousands_separator(999), "999");
    assert_eq!(thousands_separator(1000), "1,000");
    assert_eq!(thousands_separator(1001), "1,001");
    assert_eq!(thousands_separator(12345), "12,345");
    assert_eq!(thousands_separator(100000), "100,000");
    assert_eq!(thousands_separator(1234567), "1,234,567");
    assert_eq!(thousands_separator(1000000000), "1,000,000,000");
    assert_eq!(thousands_separator(u64::MAX), "18,446,744,073,709,551,615");
}

#[test]
fn separator_without_commas_is_the_decimal_text() {
    for n in [0u64, 5, 10, 999, 1000, 10203, 99999999, 1 << 40, u64::MAX - 1] {
        let plain: String = thousands_separator(n).chars().filter(|c| *c != ',').collect();
        assert_eq!(plain, n.to_string());
    }
}

#[test]
fn digits_and_decimal_text() {
    assert_eq!(digit(0), '0');
    assert_eq!(digit(4), '4');
    assert_eq!(digit(9), '9');
    let mut s = String::from("n=");
    push_decimal(&mut s, 9070);
    assert_eq!(s, "n=9070");
    push_grouped(&mut s, 1002003);
    assert_eq!(s, "n=90701,002,003");
    let mut z = String::new();
    push_decimal(&mut z, 0);
    assert_eq!(z, "0");
}

#[test]
fn small_values_are_written_in_full() {
    assert_eq!(render(&big(0)), "0");
    assert_eq!(render(&big(1)), "1");
    assert_eq!(render(&big(10)), "10");
    assert_eq!(render(&big(1000)), "1000");
    assert_eq!(render(&big(u64::MAX)), "18446744073709551615");
    let below = ten_to(35) - big(1);
    assert_eq!(render(&below), "99999999999999999999999999999999999");
}

#[test]
fn hundredth_term_is_written_in_full() {
    let term = calculate_fibonacci(100).unwrap();
    assert!(!uses_scientific_notation(&term));
    assert_eq!(render(&term), "354224848179261915075");
    assert_eq!(render(&term).len(), 21);
}

#[test]
fn thousandth_term_is_written_in_scientific_notation() {
    let term = calculate_fibonacci(1000).unwrap();
    assert!(uses_scientific_notation(&term));
    assert_eq!(render(&term), "4.3466e+208");
    assert_eq!(scientific_notation(&term), "4.3466e+208");
    let full = term.to_string();
    assert_eq!(full.len(), 209);
    assert_eq!(&full[..5], "43466");
}

#[test]
fn limit_is_written_in_full_and_the_next_value_is_not() {
    let limit = ten_to(35);
    assert!(!uses_scientific_notation(&limit));
    assert_eq!(render(&limit), "100000000000000000000000000000000000");
    let next = &limit + big(1);
    assert!(uses_scientific_notation(&next));
    assert_eq!(render(&next), "1.0000e+35");
}

#[test]
fn rendering_twice_gives_the_same_text() {
    for n in [0u64, 90, 100, 167, 168, 169, 1000, 5000] {
        let term = calculate_fibonacci(n).unwrap();
        assert_eq!(render(&term), render(&term));
        assert_eq!(scientific_notation(&term), scientific_notation(&term));
    }
}

#[test]
fn scientific_notation_of_zero() {
    assert_eq!(scientific_notation(&big(0)), "0.0e0");
    assert_eq!(scientific_notation(&BigUint::new(vec![])), "0.0e0");
}

#[test]
fn scientific_notation_fills_short_values_with_zeros() {
    assert_eq!(scientific_notation(&big(1)), "1.0000e+0");
    assert_eq!(scientific_notation(&big(7)), "7.0000e+0");
    assert_eq!(scientific_notation(&big(10)), "1.0000e+1");
    assert_eq!(scientific_notation(&big(42)), "4.2000e+1");
    assert_eq!(scientific_notation(&big(999)), "9.9900e+2");
    assert_eq!(scientific_notation(&big(9999)), "9.9990e+3");
    assert_eq!(scientific_notation(&big(10000)), "1.0000e+4");
    assert_eq!(scientific_notation(&big(12345)), "1.2345e+4");
}

#[test]
fn scientific_notation_cuts_off_and_does_not_round() {
    assert_eq!(scientific_notation(&big(123456)), "1.2345e+5");
    assert_eq!(scientific_notation(&big(123459)), "1.2345e+5");
    assert_eq!(scientific_notation(&big(99999999)), "9.9999e+7");
    assert_eq!(scientific_notation(&big(u64::MAX)), "1.8446e+19");
    let nines = ten_to(60) - big(1);
    assert_eq!(scientific_notation(&nines), "9.9999e+59");
    let value = parse("1234567890123456789012345678901234567890");
    assert_eq!(scientific_notation(&value), "1.2345e+39");
}

#[test]
fn scientific_notation_groups_the_exponent() {
    assert_eq!(scientific_notation(&ten_to(999)), "1.0000e+999");
    assert_eq!(scientific_notation(&ten_to(1000)), "1.0000e+1,000");
    assert_eq!(scientific_notation(&ten_to(1234)), "1.0000e+1,234");
    let term = calculate_fibonacci(100_000).unwrap();
    assert_eq!(scientific_notation(&term), "2.5974e+20,898");
}

#[test]
fn scientific_notation_around_powers_of_ten() {
    for e in 1..=320u32 {
        let power = ten_to(e);
        let under = &power - big(1);
        let over = &power + big(1);
        assert_eq!(scientific_notation(&power), reference(&power), "10^{}", e);
        assert_eq!(scientific_notation(&under), reference(&under), "10^{} - 1", e);
        assert_eq!(scientific_notation(&over), reference(&over), "10^{} + 1", e);
    }
}

#[test]
fn scientific_notation_around_powers_of_two() {
    for e in 0..=700u32 {
        let power = big(2).pow(e);
        let under = &power - big(1);
        assert_eq!(scientific_notation(&power), reference(&power), "2^{}", e);
        if e > 0 {
            assert_eq!(scientific_notation(&under), reference(&under), "2^{} - 1", e);
        }
    }
}

#[test]
fn scientific_notation_has_its_shape() {
    for n in [170u64, 171, 500, 1000, 4784, 30000] {
        let term = calculate_fibonacci(n).unwrap();
        let text = scientific_notation(&term);
        let full = term.to_string();
        let bytes = text.as_bytes();
        assert!(bytes[0].is_ascii_digit());
        assert_eq!(bytes[1], b'.');
        assert!(bytes[2..6].iter().all(|b| b.is_ascii_digit()));
        assert_eq!(&text[6..8], "e+");
        assert!(text.len() > 8);
        assert!(bytes[8..].iter().all(|b| b.is_ascii_digit() || *b == b','));
        let mantissa = format!("{}{}", &text[..1], &text[2..6]);
        assert_eq!(mantissa, &full[..5]);
        let exponent: String = text[8..].chars().filter(|c| *c != ',').collect();
        assert_eq!(exponent.parse::<usize>().unwrap(), full.len() - 1);
    }
}

#[test]
fn leading_digits_and_exponent() {
    assert_eq!(leading_and_exponent(&big(1)), (10000, 0));
    assert_eq!(leading_and_exponent(&big(999)), (99900, 2));
    assert_eq!(leading_and_exponent(&big(54321)), (54321, 4));
    assert_eq!(leading_and_exponent(&big(543219)), (54321, 5));
    assert_eq!(leading_and_exponent(&ten_to(35)), (10000, 35));
    assert_eq!(leading_and_exponent(&(ten_to(35) - big(1))), (99999, 34));
    assert_eq!(leading_and_exponent(&calculate_fibonacci(1000).unwrap()), (43466, 208));
}

#[test]
fn formatting_of_digits_and_exponent() {
    assert_eq!(format_scientific(43466, 208), "4.3466e+208");
    assert_eq!(format_scientific(10000, 0), "1.0000e+0");
    assert_eq!(format_scientific(10203, 1234567), "1.0203e+1,234,567");
    assert_eq!(format_scientific(99999, u64::MAX), "9.9999e+18,446,744,073,709,551,615");
}

#[test]
fn exponent_estimates() {
    assert_eq!(estimated_exponent(0), 0);
    assert_eq!(estimated_exponent(1), 0);
    assert_eq!(estimated_exponent(4), 1);
    assert_eq!(estimated_exponent(117), 35);
    assert_eq!(estimated_exponent(694), 208);
    assert_eq!(estimated_exponent(100000), 30103);
    assert_eq!(estimated_exponent(u64::MAX), 5553023368508786322);
}

#[test]
fn powers_of_ten() {
    assert_eq!(power_of_ten(0), big(1));
    assert_eq!(power_of_ten(1), big(10));
    assert_eq!(power_of_ten(19), big(10_000_000_000_000_000_000));
    assert_eq!(power_of_ten(35), parse("100000000000000000000000000000000000"));
    assert_eq!(power_of_ten(300), ten_to(300));
}

#[test]
fn long_value_in_scientific_notation() {
    let value = big(7) * ten_to(50_000) + big(123);
    assert_eq!(scientific_notation(&value), "7.0000e+50,000");
    let term = calculate_fibonacci(1_000_000).unwrap();
    assert_eq!(scientific_notation(&term), "1.9532e+208,987");
}
