//! Modular arithmetic on `u64` with 128-bit intermediates, and the binary
//! greatest common divisor.

use crate::arith;
use vstd::arithmetic::div_mod::*;
use vstd::arithmetic::mul::*;
use vstd::arithmetic::power::*;
use vstd::arithmetic::power2::*;
use vstd::bits::*;
use vstd::prelude::*;

verus! {

/// The product of `a` and `b` modulo `m`.
pub fn mod_mul(a: u64, b: u64, m: u64) -> (r: u64)
    requires
        m > 0,
    ensures
        r == (a * b) % m as int,
{
    assert(0 <= a * b <= 0xffff_ffff_ffff_ffff * 0xffff_ffff_ffff_ffff) by (nonlinear_arith)
        requires
            0 <= a <= 0xffff_ffff_ffff_ffff,
            0 <= b <= 0xffff_ffff_ffff_ffff,
    ;
    ((a as u128 * b as u128) % m as u128) as u64
}

/// What `mod_pow` computes: the power reduced modulo `m`, and one for the
/// exponent zero, whatever the modulus.
pub open spec fn pow_mod(base: nat, exp: nat, m: nat) -> int {
    if exp == 0 {
        1
    } else {
        pow(base as int, exp) % m as int
    }
}

/// One step of repeated squaring.
pub proof fn lemma_pow_step(result: int, base: int, exp: nat, m: int)
    requires
        m > 0,
        exp > 0,
    ensures
        exp % 2 == 1 ==> (result * pow(base, exp)) % m == (((result * base) % m) * pow(
            (base * base) % m,
            exp / 2,
        )) % m,
        exp % 2 == 0 ==> (result * pow(base, exp)) % m == (result * pow(
            (base * base) % m,
            exp / 2,
        )) % m,
{
    let h = exp / 2;
    let sq = pow(base * base, h);
    lemma_pow_mod_noop(base * base, h, m);
    let red = pow((base * base) % m, h);
    assert(sq == pow(base, 2 * h)) by {
        lemma_pow_multiplies(base, 2, h);
        lemma_square_is_pow2(base);
    }
    if exp % 2 == 1 {
        assert(exp == 1 + 2 * h);
        lemma_pow_adds(base, 1, 2 * h);
        lemma_pow1(base);
        lemma_mul_is_associative(result, base, sq);
        lemma_mul_mod_noop_general(result * base, sq, m);
        lemma_mul_mod_noop_general((result * base) % m, red, m);
        lemma_mod_twice(result * base, m);
    } else {
        assert(exp == 2 * h);
        lemma_mul_mod_noop_general(result, sq, m);
        lemma_mul_mod_noop_general(result, red, m);
    }
}

/// `base` to the power of `exp` modulo `modulus`, by repeated squaring.
pub fn mod_pow(base: u64, exp: u64, modulus: u64) -> (r: u64)
    requires
        modulus > 0,
    ensures
        r == pow_mod(base as nat, exp as nat, modulus as nat),
{
    let mut result: u64 = 1;
    let mut b: u64 = base % modulus;
    let mut e: u64 = exp;
    proof {
        lemma_pow_mod_noop(base as int, exp as nat, modulus as int);
        assert(1 * pow(b as int, e as nat) == pow(b as int, e as nat));
    }
    while e > 0
        invariant
            modulus > 0,
            (result * pow(b as int, e as nat)) % modulus as int == pow(base as int, exp as nat)
                % modulus as int,
            e == 0 && exp > 0 ==> result < modulus,
            exp == 0 ==> result == 1 && e == 0,
        decreases e,
    {
        assert(e & 1 == e % 2) by (bit_vector);
        assert(e >> 1 == e / 2) by (bit_vector);
        proof {
            lemma_pow_step(result as int, b as int, e as nat, modulus as int);
        }
        if e & 1 == 1 {
            result = mod_mul(result, b, modulus);
        }
        e = e >> 1;
        b = mod_mul(b, b, modulus);
    }
    proof {
        lemma_pow0(b as int);
        assert(result * 1 == result);
        if exp > 0 {
            lemma_small_mod(result as nat, modulus as nat);
        }
    }
    result
}

/// Shifting out the trailing zeros leaves the odd part.
proof fn lemma_trailing_zeros(i: u64, t: u64)
    requires
        t < 64,
        i << ((64 - t) as u64) == 0,
    ensures
        i == (i >> t) * pow2(t as nat),
{
    let s = (64 - t) as u64;
    assert((i >> t) << t == i) by (bit_vector)
        requires
            s == 64 - t,
            t < 64,
            i << s == 0,
    ;
    lemma_u64_shr_is_div(i, t);
    lemma_pow2_pos(t as nat);
    lemma_fundamental_div_mod(i as int, pow2(t as nat) as int);
    lemma_mul_is_commutative(pow2(t as nat) as int, (i >> t) as int);
    lemma_u64_shl_is_mul(i >> t, t);
}

/// Factors of two do not matter to the common divisors with an odd number.
proof fn lemma_gcd_odd(a: nat, b: nat, k: nat)
    requires
        a % 2 == 1,
    ensures
        arith::gcd_of(a, b * pow2(k)) == arith::gcd_of(a, b),
    decreases k,
{
    if k == 0 {
        lemma2_to64();
        assert(b * 1 == b);
    } else {
        let j = (k - 1) as nat;
        lemma_gcd_odd(a, b, j);
        lemma_pow2_unfold(k);
        let c = b * pow2(j);
        assert(b * pow2(k) == 2 * c) by (nonlinear_arith)
            requires
                pow2(k) == 2 * pow2(j),
                c == b * pow2(j),
        ;
        assert(arith::gcd_of(2, a) == 1) by {
            reveal_with_fuel(arith::gcd_of, 4);
            if a > 1 {
                lemma_small_mod(2, a);
            }
        }
        arith::lemma_gcd_coprime_factor(2, c, a);
        arith::lemma_gcd_commutes(a, 2 * c);
        arith::lemma_gcd_commutes(a, c);
    }
}

proof fn lemma_gcd_subtract(a: nat, b: nat)
    requires
        a <= b,
    ensures
        arith::gcd_of(a, (b - a) as nat) == arith::gcd_of(a, b),
{
    let c = (b - a) as nat;
    assert forall|k: nat| #[trigger] arith::divides(k, a) && arith::divides(k, c) implies
        arith::divides(k, a) && arith::divides(k, b) by {
        arith::lemma_divides_sum(k, a, c);
    }
    assert forall|k: nat| #[trigger] arith::divides(k, a) && arith::divides(k, b) implies
        arith::divides(k, a) && arith::divides(k, c) by {
        arith::lemma_divides_sum(k, a, c);
    }
    arith::lemma_gcd_same_divisors(a, c, a, b);
}

/// Splitting off the common factors of two and the other ones of `a`.
proof fn lemma_gcd_start(a: u64, b: u64, shift: u64, ta: u64)
    requires
        a > 0,
        b > 0,
        shift < 64,
        ta < 64,
        (a | b) << ((64 - shift) as u64) == 0,
        ((a | b) >> shift) & 1 == 1,
        a << ((64 - ta) as u64) == 0,
        (a >> ta) & 1 == 1,
    ensures
        (a >> ta) % 2 == 1,
        arith::gcd_of(a as nat, b as nat) == arith::gcd_of((a >> ta) as nat, b as nat) * pow2(
            shift as nat,
        ),
{
    let s = (64 - shift) as u64;
    let u = (64 - ta) as u64;
    let a1 = a >> ta;
    let b1 = b >> shift;
    let p = pow2(shift as nat);
    assert(a << s == 0 && b << s == 0) by (bit_vector)
        requires
            (a | b) << s == 0,
    ;
    lemma_trailing_zeros(a, ta);
    lemma_trailing_zeros(b, shift);
    assert(a1 % 2 == 1) by (bit_vector)
        requires
            a1 & 1 == 1,
    ;
    // The common shift is no greater than that of `a`.
    assert(shift <= ta) by (bit_vector)
        requires
            a << s == 0,
            s == 64 - shift,
            ta < 64,
            shift < 64,
            (a >> ta) & 1 == 1,
    ;
    let k = (ta - shift) as nat;
    let r = pow2(k);
    lemma_pow2_adds(shift as nat, k);
    assert(a == p * (a1 * r)) by (nonlinear_arith)
        requires
            a == a1 * pow2(ta as nat),
            pow2(ta as nat) == p * r,
    ;
    lemma_mul_is_commutative(b1 as int, p as int);
    arith::lemma_gcd_scale((a1 * r) as nat, b1 as nat, p);
    // One of the two numbers is odd once the common factors are gone.
    if shift == ta {
        lemma2_to64();
        assert(a1 * r == a1);
    } else {
        assert(b1 % 2 == 1) by (bit_vector)
            requires
                ((a | b) >> shift) & 1 == 1,
                shift < ta,
                ta < 64,
                u == 64 - ta,
                a << u == 0,
                b1 == b >> shift,
        ;
        lemma_gcd_odd(b1 as nat, a1 as nat, k);
        arith::lemma_gcd_commutes(b1 as nat, a1 as nat);
        arith::lemma_gcd_commutes(b1 as nat, (a1 * r) as nat);
    }
    lemma_gcd_odd(a1 as nat, b1 as nat, shift as nat);
    lemma_mul_is_commutative(arith::gcd_of(a1 as nat, b1 as nat) as int, p as int);
}

/// Law: the greatest common divisor divides both numbers, and every common
/// divisor divides it.
pub proof fn law_gcd(a: nat, b: nat)
    ensures
        arith::divides(arith::gcd_of(a, b), a),
        arith::divides(arith::gcd_of(a, b), b),
        forall|k: nat|
            #[trigger] arith::divides(k, a) && arith::divides(k, b) ==> arith::divides(
                k,
                arith::gcd_of(a, b),
            ),
{
    arith::lemma_gcd_divides(a, b);
    assert forall|k: nat| #[trigger] arith::divides(k, a) && arith::divides(k, b) implies
        arith::divides(k, arith::gcd_of(a, b)) by {
        arith::lemma_gcd_greatest(a, b, k);
    }
}

/// The greatest common divisor by shifts and subtractions; zero for two zeros.
pub fn gcd(a: u64, b: u64) -> (r: u64)
    ensures
        r == arith::gcd_of(a as nat, b as nat),
        arith::divides(r as nat, a as nat),
        arith::divides(r as nat, b as nat),
        forall|k: nat|
            #[trigger] arith::divides(k, a as nat) && arith::divides(k, b as nat)
                ==> arith::divides(k, r as nat),
{
    proof {
        law_gcd(a as nat, b as nat);
    }
    if a == 0 {
        proof {
            arith::lemma_gcd_commutes(a as nat, b as nat);
        }
        return b;
    }
    if b == 0 {
        return a;
    }
    broadcast use vstd::std_specs::bits::axiom_u64_trailing_zeros;

    assert(a | b != 0) by (bit_vector)
        requires
            a != 0,
    ;
    let shift = (a | b).trailing_zeros();
    let ta = a.trailing_zeros();
    proof {
        lemma_gcd_start(a, b, shift as u64, ta as u64);
    }
    let mut x: u64 = a >> ta;
    let mut y: u64 = b;
    loop
        invariant
            x % 2 == 1,
            y > 0,
            shift < 64,
            a > 0,
            arith::divides(arith::gcd_of(a as nat, b as nat), a as nat),
            arith::divides(arith::gcd_of(a as nat, b as nat), b as nat),
            forall|k: nat|
                #[trigger] arith::divides(k, a as nat) && arith::divides(k, b as nat)
                    ==> arith::divides(k, arith::gcd_of(a as nat, b as nat)),
            arith::gcd_of(a as nat, b as nat) == arith::gcd_of(x as nat, y as nat) * pow2(
                shift as nat,
            ),
        decreases x + y,
    {
        let ghost (x0, y0) = (x, y);
        let ty = y.trailing_zeros();
        proof {
            lemma_trailing_zeros(y, ty as u64);
            lemma_gcd_odd(x as nat, (y >> ty) as nat, ty as nat);
            let z: u64 = y >> ty;
            assert(z % 2 == 1) by (bit_vector)
                requires
                    z & 1 == 1,
            ;
            assert(y >> ty <= y) by (bit_vector);
            arith::lemma_gcd_commutes(x as nat, (y >> ty) as nat);
        }
        y = y >> ty;
        if x > y {
            let t = x;
            x = y;
            y = t;
        }
        proof {
            lemma_gcd_subtract(x as nat, y as nat);
        }
        y = y - x;
        if y == 0 {
            proof {
                arith::lemma_divides_le(arith::gcd_of(a as nat, b as nat), a as nat);
                lemma_u64_shl_is_mul(x, shift as u64);
            }
            return x << shift;
        }
    }
}

/// Law: powers modulo `m` start at one, and each is the one before times the base,
/// modulo `m`.
pub proof fn law_pow_mod(base: nat, exp: nat, m: nat)
    requires
        m > 0,
    ensures
        pow_mod(base, 0, m) == 1,
        pow_mod(base, exp + 1, m) == (pow_mod(base, exp, m) * base) % m as int,
{
    let b = base as int;
    lemma_pow_adds(b, exp, 1);
    lemma_pow1(b);
    if exp == 0 {
        lemma_pow0(b);
    } else {
        lemma_mul_mod_noop_general(pow(b, exp), b, m as int);
        lemma_mul_mod_noop_general(pow(b, exp) % m as int, b, m as int);
        lemma_mod_twice(pow(b, exp), m as int);
    }
}

/// Law: exponents add up when powers modulo `m` are multiplied.
pub proof fn law_pow_mod_adds(base: nat, e: nat, f: nat, m: nat)
    requires
        m > 1,
    ensures
        pow_mod(base, e + f, m) == (pow_mod(base, e, m) * pow_mod(base, f, m)) % m as int,
    decreases f,
{
    law_pow_mod(base, e, m);
    if f == 0 {
        let x = pow_mod(base, e, m);
        assert(x * 1 == x);
        if e == 0 {
            lemma_small_mod(1, m);
        } else {
            lemma_mod_twice(pow(base as int, e), m as int);
        }
    } else {
        let g = (f - 1) as nat;
        law_pow_mod_adds(base, e, g, m);
        law_pow_mod(base, e + g, m);
        law_pow_mod(base, g, m);
        let x = pow_mod(base, e, m);
        let y = pow_mod(base, g, m);
        let b = base as int;
        lemma_mul_mod_noop_general(x * y, b, m as int);
        lemma_mul_mod_noop_general(x, y * b, m as int);
        lemma_mul_is_associative(x, y, b);
    }
}

} // verus!
