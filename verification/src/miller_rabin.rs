//! The Miller-Rabin test with a fixed set of witnesses.

use crate::arith;
use crate::fermat;
use crate::modular::{mod_mul, mod_pow};
use vstd::arithmetic::div_mod::*;
use vstd::arithmetic::mul::*;
use vstd::arithmetic::power::*;
use vstd::arithmetic::power2::*;
use vstd::prelude::*;

verus! {

/// The bases of the test: the first twelve primes.
pub const MR_WITNESSES: [u64; 12] = [2, 3, 5, 7, 11, 13, 17, 19, 23, 29, 31, 37];

/// How often two divides `n`.
pub open spec fn twos(n: nat) -> nat
    decreases n,
{
    if n == 0 || n % 2 == 1 {
        0
    } else {
        1 + twos(n / 2)
    }
}

/// What is left of `n` without its factors of two.
pub open spec fn odd_part(n: nat) -> nat
    decreases n,
{
    if n == 0 || n % 2 == 1 {
        n
    } else {
        odd_part(n / 2)
    }
}

/// `n` is a strong probable prime to the base `a`: with `n - 1 = d * 2^r` and
/// `d` odd, `a^d` is one modulo `n`, or one of `a^d, a^(2d), .., a^(2^(r-1) d)`
/// is minus one.
pub open spec fn strong_probable_prime(n: nat, a: nat) -> bool {
    let m = (n - 1) as nat;
    ||| pow(a as int, odd_part(m)) % n as int == 1
    ||| exists|i: nat|
        i < twos(m) && #[trigger] pow(a as int, odd_part(m) * pow2(i)) % n as int == n - 1
}

/// What the test accepts: the witnesses themselves, and the numbers from two on
/// that no witness divides and that are strong probable primes to each of them.
pub open spec fn passes_miller_rabin(n: nat) -> bool {
    ||| exists|k: int| 0 <= k < 12 && n == #[trigger] MR_WITNESSES@[k]
    ||| n >= 2 && forall|k: int|
        0 <= k < 12 ==> {
            &&& !arith::divides(#[trigger] MR_WITNESSES@[k] as nat, n)
            &&& strong_probable_prime(n, MR_WITNESSES@[k] as nat)
        }
}

/// A number is an odd number times a power of two in one way only.
proof fn lemma_odd_part(m: nat, d: nat, r: nat)
    requires
        m == d * pow2(r),
        d % 2 == 1,
    ensures
        twos(m) == r,
        odd_part(m) == d,
    decreases r,
{
    if r == 0 {
        lemma2_to64();
        assert(m == d);
    } else {
        let s = (r - 1) as nat;
        lemma_pow2_unfold(r);
        assert(m == 2 * (d * pow2(s))) by (nonlinear_arith)
            requires
                m == d * pow2(r),
                pow2(r) == 2 * pow2(s),
        ;
        lemma_pow2_pos(s);
        assert(d * pow2(s) > 0) by (nonlinear_arith)
            requires
                d > 0,
                pow2(s) > 0,
        ;
        lemma_odd_part((d * pow2(s)) as nat, d, s);
    }
}

proof fn lemma_odd_part_product(m: nat)
    requires
        m > 0,
    ensures
        m == odd_part(m) * pow2(twos(m)),
        odd_part(m) % 2 == 1,
    decreases m,
{
    if m % 2 == 1 {
        lemma2_to64();
        assert(m * 1 == m);
    } else {
        lemma_odd_part_product(m / 2);
        lemma_pow2_unfold(twos(m));
        let q = odd_part(m);
        let s = pow2(twos(m / 2));
        assert(q * (2 * s) == 2 * (q * s)) by (nonlinear_arith);
    }
}

/// Squaring doubles the exponent.
proof fn lemma_pow_square(a: nat, d: nat, i: nat, n: nat)
    requires
        n > 0,
    ensures
        pow(a as int, d * pow2(i + 1)) % n as int == ((pow(a as int, d * pow2(i)) % n as int) * (
        pow(a as int, d * pow2(i)) % n as int)) % n as int,
{
    let e = d * pow2(i);
    let x = pow(a as int, e);
    lemma_pow2_unfold(i + 1);
    assert(d * pow2(i + 1) == e + e) by (nonlinear_arith)
        requires
            pow2(i + 1) == 2 * pow2(i),
            e == d * pow2(i),
    ;
    lemma_pow_adds(a as int, e, e);
    lemma_mul_mod_noop_general(x, x, n as int);
}

/// Modulo a prime, a chain of squares that ends in one starts with one or
/// passes through minus one.
proof fn lemma_chain_of_squares(a: nat, d: nat, i: nat, n: nat)
    requires
        arith::prime(n),
        pow(a as int, d * pow2(i)) % n as int == 1,
    ensures
        pow(a as int, d) % n as int == 1 || exists|j: nat|
            j < i && #[trigger] pow(a as int, d * pow2(j)) % n as int == n - 1,
    decreases i,
{
    if i == 0 {
        lemma2_to64();
        assert(d * pow2(0) == d);
    } else {
        let j = (i - 1) as nat;
        lemma_pow_square(a, d, j, n);
        let x = (pow(a as int, d * pow2(j)) % n as int) as nat;
        lemma_mod_bound(pow(a as int, d * pow2(j)), n as int);
        lemma_small_mod(x, n);
        fermat::lemma_square_root_of_one(x, n);
        if x == 1 {
            lemma_chain_of_squares(a, d, j, n);
        }
    }
}

/// An odd prime is a strong probable prime to every base that it does not divide.
pub proof fn lemma_prime_is_strong_probable_prime(n: nat, a: nat)
    requires
        arith::prime(n),
        n > 2,
        !arith::divides(n, a),
    ensures
        strong_probable_prime(n, a),
{
    let m = (n - 1) as nat;
    fermat::lemma_fermat(a, n);
    lemma_odd_part_product(m);
    lemma_chain_of_squares(a, odd_part(m), twos(m), n);
}

/// The primes below 41 are the witnesses.
pub proof fn lemma_small_primes(n: nat)
    requires
        n < 41,
    ensures
        arith::prime(n) <==> exists|k: int| 0 <= k < 12 && n == #[trigger] MR_WITNESSES@[k],
{
    let w = MR_WITNESSES@;
    assert(w[0] == 2 && w[1] == 3 && w[2] == 5 && w[3] == 7 && w[4] == 11 && w[5] == 13 && w[6]
        == 17 && w[7] == 19 && w[8] == 23 && w[9] == 29 && w[10] == 31 && w[11] == 37);
    if arith::prime(n) {
        assert(arith::divides(2, n) ==> n == 2);
        assert(arith::divides(3, n) ==> n == 3);
        assert(arith::divides(5, n) ==> n == 5);
    } else if n >= 2 {
        let p = arith::lemma_small_prime_divisor(n);
        assert(p <= 6) by (nonlinear_arith)
            requires
                p * p < 41,
        ;
        assert(arith::divides(2, p) ==> p == 2);
        assert(p == 2 || p == 3 || p == 5);
    }
}

/// Law: the test accepts every prime.
pub proof fn law_primes_pass(n: nat)
    requires
        arith::prime(n),
    ensures
        passes_miller_rabin(n),
{
    if !(exists|k: int| 0 <= k < 12 && n == #[trigger] MR_WITNESSES@[k]) {
        if n < 41 {
            lemma_small_primes(n);
        }
        assert forall|k: int| 0 <= k < 12 implies {
            &&& !arith::divides(#[trigger] MR_WITNESSES@[k] as nat, n)
            &&& strong_probable_prime(n, MR_WITNESSES@[k] as nat)
        } by {
            let a = MR_WITNESSES@[k] as nat;
            assert(2 <= a <= 37);
            if arith::divides(n, a) {
                arith::lemma_divides_le(n, a);
            }
            lemma_prime_is_strong_probable_prime(n, a);
        }
    }
}

/// Law: below the square of 41 the test accepts the primes and nothing else.
pub proof fn law_exact_below_1681(n: nat)
    requires
        n < 1681,
    ensures
        passes_miller_rabin(n) <==> arith::prime(n),
{
    if arith::prime(n) {
        law_primes_pass(n);
    } else if n >= 2 {
        if n < 41 {
            lemma_small_primes(n);
        }
        let p = arith::lemma_small_prime_divisor(n);
        assert(p < 41) by (nonlinear_arith)
            requires
                p * p < 1681,
        ;
        lemma_small_primes(p);
    } else {
        lemma_small_primes(n);
    }
}

/// A number with a witness as a proper divisor is no witness itself.
proof fn lemma_not_witness(n: nat, k: int)
    requires
        0 <= k < 12,
        arith::divides(MR_WITNESSES@[k] as nat, n),
        n != MR_WITNESSES@[k],
    ensures
        !passes_miller_rabin(n),
{
    let w = MR_WITNESSES@[k] as nat;
    assert(2 <= w < 41);
    if n < 41 {
        lemma_small_primes(n);
        assert(arith::prime(n) ==> w == n);
    }
}

/// A positive multiple of a power of two is no less than the power's exponent allows.
proof fn lemma_pow2_lower(h: nat, r: nat, n: nat)
    requires
        h > 0,
        h * pow2(r) < n,
        n <= u64::MAX,
    ensures
        r < 64,
{
    lemma2_to64_rest();
    if r >= 64 {
        if r > 64 {
            lemma_pow2_strictly_increases(64, r);
        }
        assert(h * pow2(r) >= pow2(r)) by (nonlinear_arith)
            requires
                h > 0,
                pow2(r) >= 0,
        ;
    }
}

/// The test for one base, with `n - 1 = d * 2^r`.
fn strong_test(n: u64, d: u64, r: u32, a: u64) -> (res: bool)
    requires
        n > 2,
        d % 2 == 1,
        r >= 1,
        n - 1 == d * pow2(r as nat),
    ensures
        res == strong_probable_prime(n as nat, a as nat),
{
    let ghost nn = n as nat;
    let ghost m = (n - 1) as nat;
    let ghost e = d as nat;
    proof {
        lemma_odd_part(m, e, r as nat);
        lemma2_to64();
        assert(e * pow2(0) == e);
    }
    let mut x: u64 = mod_pow(a, d, n);
    if x == 1 {
        return true;
    }
    if x == n - 1 {
        assert(pow(a as int, odd_part(m) * pow2(0)) % nn as int == nn - 1);
        return true;
    }
    let mut i: u32 = 0;
    while i < r - 1
        invariant
            n > 2,
            nn == n,
            r >= 1,
            i <= r - 1,
            m == n - 1,
            e == odd_part(m),
            r == twos(m),
            x == pow(a as int, e * pow2(i as nat)) % nn as int,
            pow(a as int, e) % nn as int != 1,
            forall|j: nat|
                j <= i ==> #[trigger] pow(a as int, e * pow2(j)) % nn as int != nn - 1,
        decreases r - i,
    {
        proof {
            lemma_pow_square(a as nat, e, i as nat, nn);
        }
        x = mod_mul(x, x, n);
        i = i + 1;
        if x == n - 1 {
            return true;
        }
    }
    false
}

/// The Miller-Rabin test for each of the witnesses. Every prime is accepted, so a
/// number that is refused is composite.
pub fn miller_rabin(n: u64) -> (res: bool)
    ensures
        res == passes_miller_rabin(n as nat),
{
    if n < 2 {
        return false;
    }
    let mut k: usize = 0;
    while k < 12
        invariant
            k <= 12,
            n >= 2,
            forall|j: int|
                0 <= j < k ==> n != #[trigger] MR_WITNESSES@[j] && !arith::divides(
                    MR_WITNESSES@[j] as nat,
                    n as nat,
                ),
        decreases 12 - k,
    {
        let p = MR_WITNESSES[k];
        assert(p == MR_WITNESSES@[k as int]);
        assert(p >= 2);
        if n == p {
            return true;
        }
        if n % p == 0 {
            proof {
                lemma_not_witness(n as nat, k as int);
            }
            return false;
        }
        k = k + 1;
    }

    let mut d: u64 = n - 1;
    let mut r: u32 = 0;
    proof {
        lemma2_to64();
        assert(d * pow2(0) == d);
    }
    while d & 1 == 0
        invariant
            d > 0,
            n - 1 == d * pow2(r as nat),
            r < 64,
        decreases d,
    {
        assert(d & 1 == d % 2) by (bit_vector);
        assert(d >> 1 == d / 2) by (bit_vector);
        proof {
            lemma_pow2_unfold((r + 1) as nat);
            let h = d / 2;
            let s = pow2(r as nat);
            assert((2 * h) * s == h * (2 * s)) by (nonlinear_arith);
            lemma_pow2_lower(h as nat, (r + 1) as nat, n as nat);
        }
        d = d >> 1;
        r = r + 1;
    }
    assert(d & 1 == d % 2) by (bit_vector);
    proof {
        assert(MR_WITNESSES@[0] == 2);
        assert(!arith::divides(2, n as nat));
        if r == 0 {
            assert(d * pow2(0) == d);
        }
    }

    let mut i: usize = 0;
    while i < 12
        invariant
            i <= 12,
            n > 2,
            d % 2 == 1,
            r >= 1,
            n - 1 == d * pow2(r as nat),
            forall|j: int|
                0 <= j < 12 ==> n != #[trigger] MR_WITNESSES@[j] && !arith::divides(
                    MR_WITNESSES@[j] as nat,
                    n as nat,
                ),
            forall|j: int|
                0 <= j < i ==> strong_probable_prime(
                    n as nat,
                    #[trigger] MR_WITNESSES@[j] as nat,
                ),
        decreases 12 - i,
    {
        let a = MR_WITNESSES[i];
        assert(a == MR_WITNESSES@[i as int]);
        if !strong_test(n, d, r, a) {
            return false;
        }
        i = i + 1;
    }
    true
}

/// `a^d` is one modulo `n`, or one of the `r` numbers from it on, each the square of the
/// one before, is minus one.
pub open spec fn square_chain(n: nat, a: nat, d: nat, r: nat) -> bool {
    ||| pow(a as int, d) % n as int == 1
    ||| exists|i: nat| i < r && #[trigger] pow(a as int, d * pow2(i)) % n as int == n - 1
}

/// Law: below 41 the test accepts the primes. From there on it accepts `n`, where
/// `n - 1` is `d * 2^r` with an odd `d`, exactly if every prime `p` below 41 leaves a
/// remainder and has the squares of a prime modulus.
pub proof fn law_miller_rabin(n: nat, d: nat, r: nat)
    requires
        n >= 1,
        n - 1 == d * pow2(r),
        d % 2 == 1,
    ensures
        n < 41 ==> (passes_miller_rabin(n) <==> arith::prime(n)),
        n >= 41 ==> (passes_miller_rabin(n) <==> forall|p: nat|
            p < 41 && #[trigger] arith::prime(p) ==> !arith::divides(p, n) && square_chain(
                n,
                p,
                d,
                r,
            )),
{
    let w = MR_WITNESSES@;
    lemma_odd_part((n - 1) as nat, d, r);
    assert(w[0] == 2 && w[1] == 3 && w[2] == 5 && w[3] == 7 && w[4] == 11 && w[5] == 13 && w[6]
        == 17 && w[7] == 19 && w[8] == 23 && w[9] == 29 && w[10] == 31 && w[11] == 37);
    if n < 41 {
        law_exact_below_1681(n);
    } else {
        if passes_miller_rabin(n) {
            assert forall|p: nat| p < 41 && #[trigger] arith::prime(p) implies !arith::divides(
                p,
                n,
            ) && square_chain(n, p, d, r) by {
                lemma_small_primes(p);
                let k = choose|k: int| 0 <= k < 12 && p == #[trigger] w[k];
                assert(strong_probable_prime(n, w[k] as nat));
            }
        }
        if forall|p: nat|
            p < 41 && #[trigger] arith::prime(p) ==> !arith::divides(p, n) && square_chain(
                n,
                p,
                d,
                r,
            ) {
            assert forall|k: int| 0 <= k < 12 implies {
                &&& !arith::divides(#[trigger] w[k] as nat, n)
                &&& strong_probable_prime(n, w[k] as nat)
            } by {
                lemma_small_primes(w[k] as nat);
                assert(arith::prime(w[k] as nat));
            }
        }
    }
}

} // verus!
