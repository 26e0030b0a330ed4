//! Fibonacci numbers by fast doubling.

use vstd::prelude::*;
use num_bigint::BigUint;
use crate::natural::{value, big_from_u64, big_add, big_sub, big_mul};

verus! {

/// The Fibonacci sequence: 0, 1, and from there on the sum of the two
/// terms before.
pub open spec fn fib(n: nat) -> nat
    decreases n,
{
    if n == 0 {
        0
    } else if n == 1 {
        1
    } else {
        fib((n - 1) as nat) + fib((n - 2) as nat)
    }
}

/// Every term from the third on is the sum of the two terms before it.
pub proof fn lemma_fib_recurrence(n: nat)
    requires
        n >= 2,
    ensures
        fib(n) == fib((n - 1) as nat) + fib((n - 2) as nat),
{
}

/// The sequence never decreases.
pub proof fn lemma_fib_monotonic(n: nat)
    ensures
        fib(n) <= fib(n + 1),
{
}

/// The addition law: `F(m+n+1) = F(m+1) F(n+1) + F(m) F(n)`.
pub proof fn lemma_fib_addition(m: nat, n: nat)
    ensures
        fib(m + n + 1) == fib(m + 1) * fib(n + 1) + fib(m) * fib(n),
    decreases n,
{
    if n == 0 {
        assert(fib(m + 1) * 1 + fib(m) * 0 == fib(m + 1));
    } else if n == 1 {
        assert(fib(2) == fib(1) + fib(0));
        assert(fib(m + 1) * 1 + fib(m) * 1 == fib(m + 2));
    } else {
        let p = (n - 1) as nat;
        let q = (n - 2) as nat;
        lemma_fib_addition(m, p);
        lemma_fib_addition(m, q);
        assert(m + p + 1 == m + n);
        assert(m + q + 1 == m + n - 1);
        assert(fib(m + n + 1) == fib(m + n) + fib((m + n - 1) as nat));
        assert(fib(n + 1) == fib(n) + fib(p));
        assert(fib(n) == fib(p) + fib(q));
        let a = fib(m + 1);
        let b = fib(m);
        let x = fib(n);
        let y = fib(p);
        let z = fib(q);
        assert(fib(p + 1) == x);
        assert(fib(q + 1) == y);
        assert((a * x + b * y) + (a * y + b * z) == a * (x + y) + b * (y + z))
            by (nonlinear_arith);
    }
}

/// The doubling laws: `F(2k) = F(k) (2 F(k+1) - F(k))` and
/// `F(2k+1) = F(k)^2 + F(k+1)^2`.
pub proof fn lemma_fib_doubling(k: nat)
    ensures
        fib(k) <= 2 * fib(k + 1),
        fib(2 * k) == fib(k) * (2 * fib(k + 1) - fib(k)),
        fib(2 * k + 1) == fib(k) * fib(k) + fib(k + 1) * fib(k + 1),
{
    lemma_fib_monotonic(k);
    lemma_fib_addition(k, k);
    assert(k + k + 1 == 2 * k + 1);
    let a = fib(k);
    let b = fib(k + 1);
    assert(b * b + a * a == a * a + b * b);
    if k == 0 {
        assert(a * (2 * b - a) == 0) by (nonlinear_arith)
            requires
                a == 0,
        ;
    } else {
        let j = (k - 1) as nat;
        lemma_fib_addition(j, k);
        assert(j + k + 1 == 2 * k);
        assert(j + 1 == k);
        let c = fib(j);
        assert(b == a + c);
        assert(a * b + c * a == a * (2 * b - a)) by (nonlinear_arith)
            requires
                b == a + c,
        ;
    }
}

/// The term `F(2k)` from `a = F(k)` and `b = F(k+1)`.
fn doubling_even(a: &BigUint, b: &BigUint) -> (r: BigUint)
    requires
        value(*a) <= 2 * value(*b),
    ensures
        value(r) == value(*a) * (2 * value(*b) - value(*a)),
{
    let two = big_from_u64(2);
    let twice = big_mul(b, &two);
    let factor = big_sub(&twice, a);
    big_mul(a, &factor)
}

/// The term `F(2k+1)` from `a = F(k)` and `b = F(k+1)`.
fn doubling_odd(a: &BigUint, b: &BigUint) -> (r: BigUint)
    ensures
        value(r) == value(*a) * value(*a) + value(*b) * value(*b),
{
    let aa = big_mul(a, a);
    let bb = big_mul(b, b);
    big_add(&aa, &bb)
}

/// `rayon::join` on the two doubling steps: it runs both closures, maybe
/// on two threads, and returns the pair of what they return. The contract
/// repeats what `doubling_even` and `doubling_odd` are proved to return.
#[verifier::external_body]
fn join_doubling(a: &BigUint, b: &BigUint) -> (r: (BigUint, BigUint))
    requires
        value(*a) <= 2 * value(*b),
    ensures
        value(r.0) == value(*a) * (2 * value(*b) - value(*a)),
        value(r.1) == value(*a) * value(*a) + value(*b) * value(*b),
{
    rayon::join(|| doubling_even(a, b), || doubling_odd(a, b))
}

/// The pair `(F(n), F(n+1))`, by fast doubling on the bits of `n`.
pub fn fib_pair(n: u64) -> (r: (BigUint, BigUint))
    ensures
        value(r.0) == fib(n as nat),
        value(r.1) == fib(n as nat + 1),
    decreases n,
{
    if n == 0 {
        return (big_from_u64(0), big_from_u64(1));
    }
    let half: u64 = n >> 1;
    let low: u64 = n & 1;
    assert(half == n / 2 && low == n % 2) by (bit_vector)
        requires
            half == n >> 1,
            low == n & 1,
    ;
    let (a, b) = fib_pair(half);
    proof {
        lemma_fib_doubling(half as nat);
    }
    let (c, d) = join_doubling(&a, &b);
    if low == 0 {
        assert(n as nat == 2 * (half as nat));
        (c, d)
    } else {
        assert(n as nat == 2 * (half as nat) + 1);
        assert(fib(n as nat + 1) == fib(n as nat) + fib((n - 1) as nat));
        let sum = big_add(&c, &d);
        (d, sum)
    }
}

/// The `n`-th Fibonacci number. It is found for every `n`: the result is
/// never an error.
pub fn calculate_fibonacci(n: u64) -> (r: Result<BigUint, String>)
    ensures
        r is Ok,
        value(r->Ok_0) == fib(n as nat),
{
    if n == 0 {
        return Ok(big_from_u64(0));
    }
    let (result, _) = fib_pair(n);
    Ok(result)
}

} // verus!
