use bigfib::calculate_fibonacci;
use bigfib::fib::fib_pair;
use num_bigint::BigUint;

fn big(n: u64) -> BigUint {
    BigUint::from(n)
}

fn parse(digits: &str) -> BigUint {
    BigUint::parse_bytes(digits.as_bytes(), 10).unwrap()
}

/// The sequence by plain addition, term after term.
fn linear(n: u64) -> BigUint {
    let mut a = big(0);
    let mut b = big(1);
    for _ in 0..n {
        let next = &a + &b;
        a = b;
        b = next;
    }
    a
}

#[test]
fn agrees_with_linear_recurrence_up_to_fifty() {
    for n in 0..=50u64 {
        assert_eq!(calculate_fibonacci(n), Ok(linear(n)), "n = {}", n);
    }
}

#[test]
fn known_small_terms() {
    assert_eq!(calculate_fibonacci(0), Ok(big(0)));
    assert_eq!(calculate_fibonacci(1), Ok(big(1)));
    assert_eq!(calculate_fibonacci(2), Ok(big(1)));
    assert_eq!(calculate_fibonacci(3), Ok(big(2)));
    assert_eq!(calculate_fibonacci(10), Ok(big(55)));
    assert_eq!(calculate_fibonacci(20), Ok(big(6765)));
    assert_eq!(calculate_fibonacci(50), Ok(big(12586269025)));
    assert_eq!(calculate_fibonacci(93), Ok(big(12200160415121876738)));
}

#[test]
fn each_term_is_the_sum_of_the_two_before() {
    for n in 2..=300u64 {
        let expected = linear(n - 1) + linear(n - 2);
        assert_eq!(calculate_fibonacci(n).unwrap(), expected, "n = {}", n);
    }
}

#[test]
fn hundredth_term() {
    let expected = parse("354224848179261915075");
    assert_eq!(calculate_fibonacci(100), Ok(expected));
}

#[test]
fn thousandth_term() {
    let term = calculate_fibonacci(1000).unwrap();
    let expected = parse(
        "43466557686937456435688527675040625802564660517371780402481729089536555417949051890403879840079255169295922593080322634775209689623239873322471161642996440906533187938298969649928516003704476137795166849228875",
    );
    assert_eq!(term, expected);
    assert_eq!(term.to_string().len(), 209);
    assert_eq!(term, linear(1000));
}

#[test]
fn large_index_agrees_with_linear_recurrence() {
    assert_eq!(calculate_fibonacci(20_000).unwrap(), linear(20_000));
    assert_eq!(calculate_fibonacci(65_535).unwrap(), linear(65_535));
    assert_eq!(calculate_fibonacci(65_536).unwrap(), linear(65_536));
}

#[test]
fn never_fails() {
    for n in [0u64, 1, 2, 7, 64, 1023, 4096] {
        assert!(calculate_fibonacci(n).is_ok());
    }
}

#[test]
fn pair_holds_the_term_and_the_next() {
    assert_eq!(fib_pair(0), (big(0), big(1)));
    assert_eq!(fib_pair(1), (big(1), big(1)));
    assert_eq!(fib_pair(10), (big(55), big(89)));
    assert_eq!(fib_pair(11), (big(89), big(144)));
    assert_eq!(fib_pair(2), (big(1), big(2)));
    assert_eq!(fib_pair(90), (big(2880067194370816120), big(4660046610375530309)));
}
