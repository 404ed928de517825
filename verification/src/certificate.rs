//! Pocklington's criterion: a proof that a number is prime, by way of the prime
//! factors of its predecessor.

use crate::arith;
use crate::fermat;
use crate::modular::{gcd, mod_pow};
use vstd::arithmetic::div_mod::*;
use vstd::arithmetic::mul::*;
use vstd::arithmetic::power::*;
use vstd::prelude::*;

verus! {

/// How many bases are tried for each prime factor of the predecessor.
pub const BASES: u64 = 1024;

/// The base `a` certifies the prime factor `q` of `n - 1`: `a^(n-1)` is one modulo
/// `n`, and `a^((n-1)/q) - 1` is coprime to `n`.
pub open spec fn certifies(n: nat, q: nat, a: nat) -> bool {
    let m = (n - 1) as nat;
    &&& pow(a as int, m) % n as int == 1
    &&& arith::gcd_of(((pow(a as int, m / q) % n as int + n - 1) % n as int) as nat, n) == 1
}

/// One of the bases that are tried certifies the prime factor `q` of `n - 1`.
pub open spec fn certified(n: nat, q: nat) -> bool {
    exists|a: nat| 2 <= a < BASES && #[trigger] certifies(n, q, a)
}

/// A power of one is one.
proof fn lemma_pow_of_one(z: int, k: nat, p: int)
    requires
        p > 1,
        z % p == 1,
    ensures
        pow(z, k) % p == 1,
{
    lemma_pow_mod_noop(z, k, p);
    lemma1_pow(k);
    lemma_small_mod(1, p as nat);
}

/// Exponents that give one have a greatest common divisor that gives one.
proof fn lemma_pow_gcd(b: int, x: nat, y: nat, p: nat)
    requires
        p > 1,
        pow(b, x) % p as int == 1,
        pow(b, y) % p as int == 1,
    ensures
        pow(b, arith::gcd_of(x, y)) % p as int == 1,
    decreases y,
{
    if y > 0 {
        let k = x / y;
        let r = x % y;
        lemma_fundamental_div_mod(x as int, y as int);
        assert(y * k >= 0) by (nonlinear_arith)
            requires
                y >= 0,
                k >= 0,
        ;
        lemma_pow_adds(b, y * k, r);
        lemma_pow_multiplies(b, y, k);
        lemma_pow_of_one(pow(b, y), k, p as int);
        let u = pow(b, y * k);
        let v = pow(b, r);
        lemma_mul_mod_noop_general(u, v, p as int);
        assert(1 * (v % p as int) == v % p as int);
        lemma_mod_twice(v, p as int);
        lemma_pow_gcd(b, y, r, p);
    }
}

/// Every prime factor of `f` is certified as a factor of `n - 1`.
pub open spec fn certified_part(n: nat, f: nat) -> bool {
    forall|q: nat| #[trigger] arith::prime(q) && arith::divides(q, f) ==> certified(n, q)
}

/// A certified prime factor of `n - 1` does not divide what is left of `n - 1` when
/// the divisors that it shares with `p - 1` are taken out, for any prime factor `p`
/// of `n`.
proof fn lemma_certified_factor(n: nat, p: nat, q: nat, k: nat)
    requires
        n >= 2,
        arith::prime(p),
        arith::divides(p, n),
        arith::prime(q),
        certified(n, q),
        n - 1 == arith::gcd_of((n - 1) as nat, (p - 1) as nat) * k,
    ensures
        !arith::divides(q, k),
{
    if arith::divides(q, k) {
        let m = (n - 1) as nat;
        let o = (p - 1) as nat;
        let g = arith::gcd_of(m, o);
        let j = arith::lemma_divides_quotient(q, k);
        assert(m == q * (g * j)) by (nonlinear_arith)
            requires
                m == g * k,
                k == q * j,
        ;
        let a = choose|a: nat| 2 <= a < BASES && #[trigger] certifies(n, q, a);
        assert(m / q == g * j) by {
            lemma_div_multiples_vanish((g * j) as int, q as int);
        }
        // Modulo `p`, the power with the exponent `g` is one.
        let b = a as int;
        lemma_pow_nonnegative(a, m);
        lemma_pow_nonnegative(a, m / q);
        let x = pow(b, m) as nat;
        arith::lemma_mod_divisor(x, n, p);
        lemma_small_mod(1, p);
        assert(pow(b, m) % p as int == 1);
        if arith::divides(p, a) {
            lemma_pow_mod_noop(b, m, p as int);
            lemma0_pow(m);
            lemma_small_mod(0, p);
        }
        fermat::lemma_fermat(a, p);
        lemma_pow_gcd(b, m, o, p);
        lemma_pow_multiplies(b, g, j);
        lemma_pow_of_one(pow(b, g), j, p as int);
        // So `p` divides what should be coprime to `n`.
        let y = pow(b, m / q) as nat;
        let w = (y % n + n - 1) as nat;
        arith::lemma_mod_divisor(y, n, p);
        arith::lemma_mod_divisor(w, n, p);
        lemma_small_mod(0, p);
        assert(y % n >= 1);
        let u = (y % n - 1) as nat;
        lemma_mod_equivalence((y % n) as int, 1, p as int);
        assert(arith::divides(p, u));
        arith::lemma_divides_sum(p, n, u);
        assert(arith::divides(p, w));
        arith::lemma_gcd_greatest(w % n, n, p);
        arith::lemma_divides_le(p, 1);
    }
}

/// Law: Pocklington's criterion. If `n - 1` has a divisor `f` with `n < (f + 1)^2`
/// and every prime factor of `f` is certified, `n` is prime.
pub proof fn law_pocklington_part(n: nat, f: nat)
    requires
        n >= 2,
        arith::divides(f, (n - 1) as nat),
        n < (f + 1) * (f + 1),
        certified_part(n, f),
    ensures
        arith::prime(n),
{
    if !arith::prime(n) {
        let m = (n - 1) as nat;
        let p = arith::lemma_small_prime_divisor(n);
        let o = (p - 1) as nat;
        let g = arith::gcd_of(m, o);
        arith::lemma_gcd_divides(m, o);
        arith::lemma_divides_le(g, o);
        let k = arith::lemma_divides_quotient(g, m);
        let h = arith::gcd_of(k, f);
        arith::lemma_divides_le(f, m);
        arith::lemma_gcd_divides(k, f);
        arith::lemma_divides_le(h, f);
        if h >= 2 {
            let q = arith::lemma_prime_divisor(h);
            arith::lemma_divides_trans(q, h, k);
            arith::lemma_divides_trans(q, h, f);
            lemma_certified_factor(n, p, q, k);
        }
        lemma_mul_is_commutative(g as int, k as int);
        arith::lemma_coprime_divides(f, k, g);
        arith::lemma_divides_le(f, g);
        assert(n >= (f + 1) * (f + 1)) by (nonlinear_arith)
            requires
                p * p <= n,
                f + 1 <= p,
        ;
    }
}

/// Law: Pocklington's criterion for the whole of `n - 1`. If every prime factor of
/// `n - 1` is certified, `n` is prime.
pub proof fn law_pocklington(n: nat)
    requires
        n >= 2,
        certified_part(n, (n - 1) as nat),
    ensures
        arith::prime(n),
{
    arith::lemma_divides_refl((n - 1) as nat);
    assert(n < n * n) by (nonlinear_arith)
        requires
            n >= 2,
    ;
    law_pocklington_part(n, (n - 1) as nat);
}

proof fn lemma_pow_nonnegative(a: nat, e: nat)
    ensures
        pow(a as int, e) >= 0,
{
    if a > 0 {
        lemma_pow_positive(a as int, e);
    } else if e > 0 {
        lemma0_pow(e);
    } else {
        lemma_pow0(a as int);
    }
}

/// Looks for a base that certifies the factor `q` of `n - 1`.
fn find_base(n: u64, q: u64) -> (found: bool)
    requires
        n >= 2,
        q >= 1,
        arith::divides(q as nat, (n - 1) as nat),
    ensures
        found == certified(n as nat, q as nat),
{
    let m: u64 = n - 1;
    let e: u64 = m / q;
    proof {
        let k = arith::lemma_divides_quotient(q as nat, m as nat);
        assert(e > 0) by (nonlinear_arith)
            requires
                m == q * e,
                m > 0,
                e >= 0,
        ;
    }
    let mut a: u64 = 2;
    while a < BASES
        invariant
            n >= 2,
            m == n - 1,
            e == m / q,
            e > 0,
            q >= 1,
            2 <= a,
            forall|b: nat| 2 <= b < a ==> !#[trigger] certifies(n as nat, q as nat, b),
        decreases BASES - a,
    {
        if mod_pow(a, m, n) == 1 {
            let y = mod_pow(a, e, n);
            let w = if y == 0 {
                n - 1
            } else {
                y - 1
            };
            assert(w == (y + n - 1) % n as int) by {
                if y == 0 {
                    lemma_small_mod((n - 1) as nat, n as nat);
                } else {
                    lemma_mod_add_multiples_vanish(y - 1, n as int);
                    lemma_small_mod((y - 1) as nat, n as nat);
                }
            }
            if gcd(w, n) == 1 {
                assert(certifies(n as nat, q as nat, a as nat));
                return true;
            }
        }
        a = a + 1;
    }
    false
}

/// Whether bases are found that certify each of the factors of `n - 1`.
pub fn certify(n: u64, factors: &Vec<u64>) -> (found: bool)
    requires
        n >= 2,
        forall|i: int|
            0 <= i < factors@.len() ==> #[trigger] factors@[i] >= 1 && arith::divides(
                factors@[i] as nat,
                (n - 1) as nat,
            ),
    ensures
        found == forall|i: int|
            0 <= i < factors@.len() ==> certified(n as nat, #[trigger] factors@[i] as nat),
{
    let mut i: usize = 0;
    while i < factors.len()
        invariant
            n >= 2,
            i <= factors@.len(),
            forall|i: int|
                0 <= i < factors@.len() ==> #[trigger] factors@[i] >= 1 && arith::divides(
                    factors@[i] as nat,
                    (n - 1) as nat,
                ),
            forall|j: int| 0 <= j < i ==> certified(n as nat, #[trigger] factors@[j] as nat),
        decreases factors@.len() - i,
    {
        if !find_base(n, factors[i]) {
            return false;
        }
        i = i + 1;
    }
    true
}

} // verus!
