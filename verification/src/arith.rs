//! Divisibility, greatest common divisors and primes of natural numbers.

use vstd::arithmetic::div_mod::*;
use vstd::arithmetic::mul::*;
use vstd::prelude::*;

verus! {

/// `d` divides `n`. Zero divides zero only.
pub open spec fn divides(d: nat, n: nat) -> bool {
    if d == 0 {
        n == 0
    } else {
        n % d == 0
    }
}

/// `n` is at least two and has no divisor but one and itself.
pub open spec fn prime(n: nat) -> bool {
    n >= 2 && forall|d: nat| #[trigger] divides(d, n) ==> d == 1 || d == n
}

/// The greatest common divisor, by Euclid's recursion; `gcd_of(0, 0)` is zero.
pub open spec fn gcd_of(a: nat, b: nat) -> nat
    decreases b,
{
    if b == 0 {
        a
    } else {
        gcd_of(b, a % b)
    }
}

/// The quotient of a number by one of its divisors.
pub proof fn lemma_divides_quotient(d: nat, n: nat) -> (k: nat)
    requires
        divides(d, n),
    ensures
        n == d * k,
        d > 0 ==> k == n / d,
{
    if d == 0 {
        0
    } else {
        lemma_fundamental_div_mod(n as int, d as int);
        n / d
    }
}

/// A number divides its multiples.
pub proof fn lemma_divides_multiple(d: nat, k: nat)
    ensures
        divides(d, d * k),
        divides(d, k * d),
{
    lemma_mul_is_commutative(d as int, k as int);
    if d == 0 {
        assert(d * k == 0) by (nonlinear_arith)
            requires
                d == 0,
        ;
    } else {
        lemma_mod_multiples_basic(k as int, d as int);
    }
}

pub proof fn lemma_divides_refl(d: nat)
    ensures
        divides(d, d),
        divides(1, d),
        divides(d, 0),
{
    lemma_divides_multiple(d, 1);
    lemma_divides_multiple(1, d);
    lemma_divides_multiple(d, 0);
    assert(d * 1 == d && 1 * d == d && d * 0 == 0);
}

pub proof fn lemma_divides_trans(a: nat, b: nat, c: nat)
    requires
        divides(a, b),
        divides(b, c),
    ensures
        divides(a, c),
{
    let i = lemma_divides_quotient(a, b);
    let j = lemma_divides_quotient(b, c);
    lemma_mul_is_associative(a as int, i as int, j as int);
    lemma_divides_multiple(a, i * j);
}

/// A divisor of a positive number is positive and no greater.
pub proof fn lemma_divides_le(d: nat, n: nat)
    requires
        divides(d, n),
        n > 0,
    ensures
        1 <= d <= n,
{
    let k = lemma_divides_quotient(d, n);
    assert(d >= 1 && d <= n) by (nonlinear_arith)
        requires
            n == d * k,
            n > 0,
            d >= 0,
            k >= 0,
    ;
}

pub proof fn lemma_divides_antisym(a: nat, b: nat)
    requires
        divides(a, b),
        divides(b, a),
    ensures
        a == b,
{
    if a > 0 && b > 0 {
        lemma_divides_le(a, b);
        lemma_divides_le(b, a);
    }
}

pub proof fn lemma_divides_sum(d: nat, a: nat, b: nat)
    requires
        divides(d, a),
    ensures
        divides(d, a + b) <==> divides(d, b),
{
    let i = lemma_divides_quotient(d, a);
    if divides(d, b) {
        let j = lemma_divides_quotient(d, b);
        lemma_mul_is_distributive_add(d as int, i as int, j as int);
        lemma_divides_multiple(d, i + j);
    }
    if divides(d, a + b) {
        let j = lemma_divides_quotient(d, a + b);
        if d > 0 {
            assert(j >= i) by (nonlinear_arith)
                requires
                    d * j == d * i + b,
                    d > 0,
                    b >= 0,
            ;
            lemma_mul_is_distributive_sub(d as int, j as int, i as int);
            lemma_divides_multiple(d, (j - i) as nat);
        }
    }
}

pub proof fn lemma_divides_mul(d: nat, a: nat, b: nat)
    requires
        divides(d, a),
    ensures
        divides(d, a * b),
        divides(d, b * a),
{
    lemma_divides_multiple(a, b);
    lemma_divides_trans(d, a, a * b);
    lemma_mul_is_commutative(a as int, b as int);
}

/// The divisors that `b` shares with `a` are those that it shares with `a % b`.
pub proof fn lemma_divides_mod(d: nat, a: nat, b: nat)
    requires
        divides(d, b),
        b > 0,
    ensures
        divides(d, a) <==> divides(d, a % b),
{
    lemma_fundamental_div_mod(a as int, b as int);
    lemma_divides_mul(d, b, a / b);
    lemma_divides_sum(d, b * (a / b), a % b);
}

/// The greatest common divisor divides both numbers.
pub proof fn lemma_gcd_divides(a: nat, b: nat)
    ensures
        divides(gcd_of(a, b), a),
        divides(gcd_of(a, b), b),
    decreases b,
{
    if b == 0 {
        lemma_divides_refl(a);
    } else {
        lemma_gcd_divides(b, a % b);
        lemma_divides_mod(gcd_of(a, b), a, b);
    }
}

/// Every common divisor divides the greatest one.
pub proof fn lemma_gcd_greatest(a: nat, b: nat, d: nat)
    requires
        divides(d, a),
        divides(d, b),
    ensures
        divides(d, gcd_of(a, b)),
    decreases b,
{
    if b != 0 {
        lemma_divides_mod(d, a, b);
        lemma_gcd_greatest(b, a % b, d);
    }
}

/// Pairs with the same common divisors have the same greatest one.
pub proof fn lemma_gcd_same_divisors(a: nat, b: nat, c: nat, d: nat)
    requires
        forall|k: nat|
            (#[trigger] divides(k, a) && divides(k, b)) ==> (divides(k, c) && divides(k, d)),
        forall|k: nat|
            (#[trigger] divides(k, c) && divides(k, d)) ==> (divides(k, a) && divides(k, b)),
    ensures
        gcd_of(a, b) == gcd_of(c, d),
{
    let g = gcd_of(a, b);
    let h = gcd_of(c, d);
    lemma_gcd_divides(a, b);
    lemma_gcd_divides(c, d);
    assert(divides(g, a) && divides(h, c));
    lemma_gcd_greatest(c, d, g);
    lemma_gcd_greatest(a, b, h);
    lemma_divides_antisym(g, h);
}

pub proof fn lemma_gcd_commutes(a: nat, b: nat)
    ensures
        gcd_of(a, b) == gcd_of(b, a),
{
    assert forall|k: nat| #[trigger] divides(k, a) && divides(k, b) implies divides(k, b)
        && divides(k, a) by {}
    assert forall|k: nat| #[trigger] divides(k, b) && divides(k, a) implies divides(k, a)
        && divides(k, b) by {}
    lemma_gcd_same_divisors(a, b, b, a);
}

/// A common factor comes out of the greatest common divisor.
pub proof fn lemma_gcd_scale(a: nat, b: nat, k: nat)
    ensures
        gcd_of(k * a, k * b) == k * gcd_of(a, b),
    decreases b,
{
    if b == 0 {
        assert(k * b == 0);
    } else if k == 0 {
        assert(k * a == 0 && k * b == 0 && k * gcd_of(a, b) == 0) by (nonlinear_arith)
            requires
                k == 0,
        ;
    } else {
        lemma_gcd_scale(b, a % b, k);
        assert(k * b > 0) by (nonlinear_arith)
            requires
                k > 0,
                b > 0,
        ;
        lemma_mod_scale(a, b, k);
    }
}

proof fn lemma_mod_scale(a: nat, b: nat, k: nat)
    requires
        k > 0,
        b > 0,
    ensures
        (k * a) % (k * b) == k * (a % b),
{
    let q = a / b;
    let r = a % b;
    lemma_fundamental_div_mod(a as int, b as int);
    assert(k * a == q * (k * b) + k * r) by (nonlinear_arith)
        requires
            a == b * q + r,
    ;
    assert(0 <= k * r < k * b) by (nonlinear_arith)
        requires
            0 <= r < b,
            k > 0,
    ;
    lemma_fundamental_div_mod_converse((k * a) as int, (k * b) as int, q as int, (k * r) as int);
}

/// Euclid's lemma: a divisor of `a * b` that is coprime to `a` divides `b`.
pub proof fn lemma_coprime_divides(d: nat, a: nat, b: nat)
    requires
        gcd_of(a, d) == 1,
        divides(d, a * b),
    ensures
        divides(d, b),
{
    lemma_gcd_scale(a, d, b);
    lemma_mul_is_commutative(a as int, b as int);
    lemma_divides_multiple(d, b);
    lemma_gcd_greatest(b * a, b * d, d);
    assert(b * 1 == b);
}

/// A number that a prime does not divide is coprime to it.
pub proof fn lemma_prime_coprime(p: nat, a: nat)
    requires
        prime(p),
        !divides(p, a),
    ensures
        gcd_of(a, p) == 1,
{
    lemma_gcd_divides(a, p);
    assert(divides(gcd_of(a, p), p));
}

/// Euclid's lemma for a prime.
pub proof fn lemma_prime_divides_product(p: nat, a: nat, b: nat)
    requires
        prime(p),
        divides(p, a * b),
    ensures
        divides(p, a) || divides(p, b),
{
    if !divides(p, a) {
        lemma_prime_coprime(p, a);
        lemma_coprime_divides(p, a, b);
    }
}

/// A factor coprime to `n` does not change the greatest common divisor with `n`.
pub proof fn lemma_gcd_coprime_factor(a: nat, b: nat, n: nat)
    requires
        gcd_of(a, n) == 1,
    ensures
        gcd_of(a * b, n) == gcd_of(b, n),
{
    assert forall|k: nat| #[trigger] divides(k, a * b) && divides(k, n) implies divides(k, b)
        && divides(k, n) by {
        // `gcd_of(a, k)` divides both `a` and `n`.
        let g = gcd_of(a, k);
        lemma_gcd_divides(a, k);
        lemma_divides_trans(g, k, n);
        lemma_gcd_greatest(a, n, g);
        lemma_divides_le(g, 1);
        lemma_coprime_divides(k, a, b);
    }
    assert forall|k: nat| #[trigger] divides(k, b) && divides(k, n) implies divides(k, a * b)
        && divides(k, n) by {
        lemma_divides_mul(k, b, a);
    }
    lemma_gcd_same_divisors(a * b, n, b, n);
}

/// Reducing an argument modulo the other keeps the greatest common divisor.
pub proof fn lemma_gcd_mod(a: nat, n: nat)
    requires
        n > 0,
    ensures
        gcd_of(a % n, n) == gcd_of(a, n),
{
    lemma_mod_twice(a as int, n as int);
    assert(gcd_of(a % n, n) == gcd_of(n, (a % n) % n));
}

/// Every number from two on has a prime divisor.
pub proof fn lemma_prime_divisor(n: nat) -> (p: nat)
    requires
        n >= 2,
    ensures
        prime(p),
        divides(p, n),
    decreases n,
{
    if prime(n) {
        lemma_divides_refl(n);
        n
    } else {
        let d = choose|d: nat| #[trigger] divides(d, n) && d != 1 && d != n;
        lemma_divides_le(d, n);
        let p = lemma_prime_divisor(d);
        lemma_divides_trans(p, d, n);
        p
    }
}

/// A composite number has a prime divisor no greater than its square root.
pub proof fn lemma_small_prime_divisor(n: nat) -> (p: nat)
    requires
        n >= 2,
        !prime(n),
    ensures
        prime(p),
        divides(p, n),
        p * p <= n,
{
    let d = choose|d: nat| #[trigger] divides(d, n) && d != 1 && d != n;
    lemma_divides_le(d, n);
    let e = lemma_divides_quotient(d, n);
    lemma_divides_multiple(e, d);
    assert(e >= 2) by (nonlinear_arith)
        requires
            n == d * e,
            2 <= d < n,
            e >= 0,
    ;
    let m = if d <= e {
        d
    } else {
        e
    };
    let p = lemma_prime_divisor(m);
    lemma_divides_le(p, m);
    lemma_divides_trans(p, m, n);
    assert(p * p <= n) by (nonlinear_arith)
        requires
            p <= m,
            m <= d,
            m <= e,
            n == d * e,
            p >= 0,
    ;
    p
}

/// Reduction modulo `n` does not change the residue modulo a divisor of `n`.
pub proof fn lemma_mod_divisor(x: nat, n: nat, p: nat)
    requires
        n > 0,
        p > 0,
        divides(p, n),
    ensures
        (x % n) % p == x % p,
{
    let q = lemma_divides_quotient(p, n);
    lemma_fundamental_div_mod(x as int, n as int);
    let t = q * (x / n);
    assert(x == p * t + x % n) by (nonlinear_arith)
        requires
            x == n * (x / n) + x % n,
            n == p * q,
            t == q * (x / n),
    ;
    lemma_mod_multiples_vanish(t as int, (x % n) as int, p as int);
}

/// Law: the divisors of `n` are the numbers that it is a multiple of.
pub proof fn law_divides(d: nat, n: nat)
    ensures
        divides(d, n) <==> exists|k: nat| n == #[trigger] (d * k),
{
    if divides(d, n) {
        let k = lemma_divides_quotient(d, n);
        assert(n == d * k);
    }
    if exists|k: nat| n == #[trigger] (d * k) {
        let k = choose|k: nat| n == #[trigger] (d * k);
        lemma_divides_multiple(d, k);
    }
}

/// Law: a number is prime if it is at least two and is a product of one and itself
/// only.
pub proof fn law_prime(n: nat)
    ensures
        prime(n) <==> n >= 2 && forall|a: nat, b: nat| n == #[trigger] (a * b) ==> a == 1 || b == 1,
{
    if prime(n) {
        assert forall|a: nat, b: nat| n == #[trigger] (a * b) implies a == 1 || b == 1 by {
            lemma_divides_multiple(a, b);
            if a == n {
                assert(b == 1) by (nonlinear_arith)
                    requires
                        n == a * b,
                        a == n,
                        n >= 2,
                ;
            }
        }
    }
    if n >= 2 && forall|a: nat, b: nat| n == #[trigger] (a * b) ==> a == 1 || b == 1 {
        assert forall|d: nat| #[trigger] divides(d, n) implies d == 1 || d == n by {
            let k = lemma_divides_quotient(d, n);
            assert(n == d * k);
            if k == 1 {
                assert(d * 1 == d);
            }
        }
    }
}

/// Law: the greatest common divisor of two numbers that are not both zero is the
/// greatest number that both are multiples of.
pub proof fn law_gcd_is_greatest(a: nat, b: nat)
    requires
        a > 0 || b > 0,
    ensures
        exists|i: nat| a == #[trigger] (gcd_of(a, b) * i),
        exists|j: nat| b == #[trigger] (gcd_of(a, b) * j),
        forall|d: nat, i: nat, j: nat|
            a == #[trigger] (d * i) && b == #[trigger] (d * j) ==> d <= gcd_of(a, b),
{
    lemma_gcd_divides(a, b);
    law_divides(gcd_of(a, b), a);
    law_divides(gcd_of(a, b), b);
    assert forall|d: nat, i: nat, j: nat|
        a == #[trigger] (d * i) && b == #[trigger] (d * j) implies d <= gcd_of(a, b) by {
        lemma_divides_multiple(d, i);
        lemma_divides_multiple(d, j);
        lemma_gcd_greatest(a, b, d);
        let g = gcd_of(a, b);
        if g == 0 {
            assert(0 * (a / 1) == 0);
            assert(divides(0, a) && divides(0, b));
        }
        lemma_divides_le(d, g);
    }
}

} // verus!
