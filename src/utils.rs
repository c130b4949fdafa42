//! Arithmetic and number-theory helpers.
//!
//! `add`, `subtract` and `multiply` wrap on overflow (two's complement, as
//! `i32::wrapping_add` and friends do): every pair of `i32` has a result.

pub mod math_utils;
pub mod string_utils;

use vstd::arithmetic::div_mod::{lemma_fundamental_div_mod, lemma_mod_mod, lemma_mod_multiples_basic};
use vstd::prelude::*;

verus! {

/// The number of distinct `i32` values.
pub open spec fn i32_range() -> int {
    0x1_0000_0000
}

/// The `i32` that is congruent to `x` modulo 2^32.
pub open spec fn wrap_i32(x: int) -> int {
    let m = x % i32_range();
    if m > i32::MAX {
        m - i32_range()
    } else {
        m
    }
}

/// Sum of `a` and `b`, wrapping on overflow.
pub fn add(a: i32, b: i32) -> (r: i32)
    ensures
        r == wrap_i32(a + b),
{
    a.wrapping_add(b)
}

/// Addition is commutative: `add(a, b) == add(b, a)` for every pair of `i32`.
pub proof fn add_commutes(a: i32, b: i32)
    ensures
        wrap_i32(a + b) == wrap_i32(b + a),
{
}

/// Product of `a` and `b`, wrapping on overflow.
pub fn multiply(a: i32, b: i32) -> (r: i32)
    ensures
        r == wrap_i32(a * b),
{
    a.wrapping_mul(b)
}

/// Multiplication is commutative: `multiply(a, b) == multiply(b, a)` for
/// every pair of `i32`.
pub proof fn multiply_commutes(a: i32, b: i32)
    ensures
        wrap_i32(a * b) == wrap_i32(b * a),
{
    assert(a * b == b * a) by (nonlinear_arith);
}

/// Difference `a - b`, wrapping on overflow.
pub fn subtract(a: i32, b: i32) -> (r: i32)
    ensures
        r == wrap_i32(a - b),
{
    a.wrapping_sub(b)
}

/// The greeting for `name`.
pub open spec fn greeting(name: Seq<char>) -> Seq<char> {
    "你好, "@ + name + "! 欢迎学习 Rust!"@
}

/// A greeting that welcomes `name` to learning Rust.
pub fn greet(name: &str) -> (r: String)
    ensures
        r@ == greeting(name@),
{
    let mut r = String::from_str("你好, ");
    r.append(name);
    r.append("! 欢迎学习 Rust!");
    r
}

/// `n!`, the product of `1..=n`.
pub open spec fn factorial_of(n: nat) -> nat
    decreases n,
{
    if n == 0 {
        1
    } else {
        n * factorial_of((n - 1) as nat)
    }
}

proof fn lemma_factorial_monotone(a: nat, b: nat)
    requires
        a <= b,
    ensures
        1 <= factorial_of(a) <= factorial_of(b),
    decreases b,
{
    if a < b {
        lemma_factorial_monotone(a, (b - 1) as nat);
        let f = factorial_of((b - 1) as nat);
        assert(f <= b * f) by (nonlinear_arith)
            requires
                1 <= b,
                1 <= f,
        ;
    } else if b > 0 {
        lemma_factorial_monotone(0, (b - 1) as nat);
        let f = factorial_of((b - 1) as nat);
        assert(1 <= b * f) by (nonlinear_arith)
            requires
                1 <= b,
                1 <= f,
        ;
    }
}

/// `20!` is the largest factorial that fits in a `u64`.
proof fn lemma_factorial_fits(n: nat)
    requires
        n <= 20,
    ensures
        factorial_of(n) <= u64::MAX,
{
    reveal_with_fuel(factorial_of, 21);
    assert(factorial_of(20) == 2432902008176640000);
    lemma_factorial_monotone(n, 20);
}

/// `n!`. Arguments above 20 are outside the contract: their factorial does
/// not fit in a `u64`.
pub fn factorial(n: u32) -> (r: u64)
    requires
        n <= 20,
    ensures
        r == factorial_of(n as nat),
{
    let mut acc: u64 = 1;
    let mut k: u32 = 0;
    while k < n
        invariant
            k <= n <= 20,
            acc == factorial_of(k as nat),
        decreases n - k,
    {
        k = k + 1;
        proof {
            lemma_factorial_fits(k as nat);
            assert(factorial_of(k as nat) == k * factorial_of((k - 1) as nat));
            assert(acc * k == k * acc) by (nonlinear_arith);
        }
        acc = acc * (k as u64);
    }
    acc
}

/// For every `n >= 1`, `n! == n * (n - 1)!`.
pub proof fn factorial_recurrence(n: nat)
    requires
        1 <= n,
    ensures
        factorial_of(n) == n * factorial_of((n - 1) as nat),
{
}

/// `n` is prime: greater than one, with no divisor strictly between one and itself.
pub open spec fn prime(n: int) -> bool {
    n > 1 && forall|d: int| 1 < d < n ==> #[trigger] (n % d) != 0
}

/// No number below two is prime.
pub proof fn below_two_not_prime(n: u32)
    requires
        n <= 1,
    ensures
        !prime(n as int),
{
}

/// If `k` divides `d` and `d` divides `n`, then `k` divides `n`.
proof fn lemma_divides_through(n: int, d: int, k: int)
    requires
        0 < k,
        0 < d,
        d % k == 0,
        n % d == 0,
    ensures
        n % k == 0,
{
    lemma_fundamental_div_mod(d, k);
    let q = d / k;
    assert(q > 0) by (nonlinear_arith)
        requires
            d == k * q,
            0 < d,
            0 < k,
    ;
    lemma_mod_mod(n, k, q);
}

/// A divisor `d` of `n` with `i <= d` and `n < i * i` has a cofactor below `i`
/// that divides `n` too.
proof fn lemma_small_cofactor(n: int, d: int, i: int)
    requires
        0 < i <= d,
        2 <= d < n,
        n < i * i,
        n % d == 0,
    ensures
        2 <= n / d < i,
        n % (n / d) == 0,
{
    lemma_fundamental_div_mod(n, d);
    let q = n / d;
    assert(n == d * q);
    assert(2 <= q < i) by (nonlinear_arith)
        requires
            n == d * q,
            0 < i <= d,
            2 <= d < n,
            n < i * i,
    ;
    assert(n == q * d) by (nonlinear_arith)
        requires
            n == d * q,
    ;
    lemma_mod_multiples_basic(d, q);
}

/// Whether `n` is prime, by trial division over the candidates `6k - 1` and
/// `6k + 1` up to the square root of `n`.
pub fn is_prime(n: u32) -> (r: bool)
    ensures
        r == prime(n as int),
{
    if n <= 1 {
        return false;
    }
    if n <= 3 {
        assert(n % 2 != 0 || n == 2);
        return true;
    }
    if n % 2 == 0 {
        return false;
    }
    if n % 3 == 0 {
        return false;
    }
    let m: u64 = n as u64;
    let mut i: u64 = 5;
    assert forall|d: int| 1 < d < 5 implies #[trigger] (m as int % d) != 0 by {
        if d == 4 && m as int % d == 0 {
            lemma_divides_through(m as int, 4, 2);
        }
    }
    while i * i <= m
        invariant
            5 <= i <= 65541,
            i * i <= 65541 * 65541,
            i % 6 == 5,
            m == n,
            4 <= m <= u32::MAX,
            m % 2 != 0,
            m % 3 != 0,
            forall|d: int| 1 < d < i ==> #[trigger] (m as int % d) != 0,
        decreases 65541 - i,
    {
        assert(i < 65536 && i + 2 < m) by (nonlinear_arith)
            requires
                i * i <= m,
                m <= u32::MAX,
                5 <= i,
        ;
        if m % i == 0 {
            assert(m as int % i as int == 0);
            return false;
        }
        if m % (i + 2) == 0 {
            assert(m as int % (i + 2) as int == 0);
            return false;
        }
        assert forall|d: int| 1 < d < i + 6 implies #[trigger] (m as int % d) != 0 by {
            if d == i + 1 || d == i + 3 || d == i + 5 {
                if m as int % d == 0 {
                    lemma_divides_through(m as int, d, 2);
                }
            } else if d == i + 4 {
                if m as int % d == 0 {
                    lemma_divides_through(m as int, d, 3);
                }
            }
        }
        i = i + 6;
        assert(i * i <= 65541 * 65541) by (nonlinear_arith)
            requires
                5 <= i <= 65541,
        ;
    }
    assert forall|d: int| 1 < d < m implies #[trigger] (m as int % d) != 0 by {
        if d >= i && m as int % d == 0 {
            lemma_small_cofactor(m as int, d, i as int);
            let q = m as int / d;
            assert(m as int % q != 0);
        }
    }
    true
}

} // verus!
