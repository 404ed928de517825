//! Primes that are known beforehand, each with a certificate: a divisor of its
//! predecessor, and a base for each prime factor of that divisor.

use crate::arith;
use crate::certificate;
use crate::modular;
use vstd::arithmetic::div_mod::*;
use vstd::arithmetic::power::*;
use vstd::prelude::*;

verus! {

/// `acc * b^e` modulo `n`, by repeated squaring.
spec fn residue(b: u64, e: u64, acc: u64, n: u64) -> u64
    decreases e,
{
    if e == 0 {
        acc
    } else if e % 2 == 0 {
        residue(((b * b) % (n as int)) as u64, e / 2, acc, n)
    } else {
        residue(((b * b) % (n as int)) as u64, e / 2, ((acc * b) % (n as int)) as u64, n)
    }
}

proof fn lemma_residue(b: u64, e: u64, acc: u64, n: u64)
    requires
        b < n,
        acc < n,
    ensures
        residue(b, e, acc, n) == (acc * pow(b as int, e as nat)) % n as int,
    decreases e,
{
    if e == 0 {
        lemma_pow0(b as int);
        lemma_small_mod(acc as nat, n as nat);
        assert(acc * 1 == acc);
    } else {
        modular::lemma_pow_step(acc as int, b as int, e as nat, n as int);
        lemma_mod_bound(b * b, n as int);
        lemma_mod_bound(acc * b, n as int);
        let c = ((b * b) % (n as int)) as u64;
        if e % 2 == 0 {
            lemma_residue(c, e / 2, acc, n);
        } else {
            lemma_residue(c, e / 2, ((acc * b) % (n as int)) as u64, n);
        }
    }
}

/// The greatest common divisor of two machine words, by Euclid's recursion.
spec fn euclid(a: u64, b: u64) -> u64
    decreases b,
{
    if b == 0 {
        a
    } else {
        euclid(b, a % b)
    }
}

proof fn lemma_euclid(a: u64, b: u64)
    ensures
        euclid(a, b) == arith::gcd_of(a as nat, b as nat),
    decreases b,
{
    if b != 0 {
        lemma_euclid(b, a % b);
    }
}

/// The base `a` certifies the factor `q` of `n - 1`.
spec fn certificate_holds(n: u64, q: u64, a: u64) -> bool {
    &&& residue(a, (n - 1) as u64, 1, n) == 1
    &&& euclid(
        ((residue(a, ((n - 1) as u64) / q, 1, n) + n - 1) % (n as int)) as u64,
        n,
    ) == 1
}

proof fn lemma_certificate(n: u64, q: u64, a: u64)
    requires
        arith::prime(q as nat),
        2 <= a < certificate::BASES,
        a < n,
        certificate_holds(n, q, a),
    ensures
        certificate::certified_part(n as nat, q as nat),
{
    let m = (n - 1) as u64;
    let e = m / q;
    let y = residue(a, e, 1, n);
    lemma_residue(a, m, 1, n);
    lemma_residue(a, e, 1, n);
    lemma_mod_bound(y + n - 1, n as int);
    lemma_euclid(((y + n - 1) % (n as int)) as u64, n);
    assert(1 * pow(a as int, m as nat) == pow(a as int, m as nat));
    assert(1 * pow(a as int, e as nat) == pow(a as int, e as nat));
    assert(certificate::certifies(n as nat, q as nat, a as nat));
    assert(certificate::certified(n as nat, q as nat));
    assert forall|p: nat| #[trigger] arith::prime(p) && arith::divides(p, q as nat) implies
        certificate::certified(n as nat, p) by {}
}

/// Two certified divisors of `n - 1` have a certified product.
proof fn lemma_part_product(n: nat, f: nat, g: nat)
    requires
        certificate::certified_part(n, f),
        certificate::certified_part(n, g),
    ensures
        certificate::certified_part(n, f * g),
{
    assert forall|p: nat| #[trigger] arith::prime(p) && arith::divides(p, f * g) implies
        certificate::certified(n, p) by {
        arith::lemma_prime_divides_product(p, f, g);
    }
}

/// A number is prime if the certified divisor `f` of its predecessor is above its
/// square root.
proof fn lemma_part(n: u64, f: u64)
    requires
        2 <= n < f * f,
        arith::divides(f as nat, (n - 1) as nat),
        certificate::certified_part(n as nat, f as nat),
    ensures
        arith::prime(n as nat),
{
    assert(n < (f + 1) * (f + 1)) by (nonlinear_arith)
        requires
            n < f * f,
            f >= 0,
    ;
    certificate::law_pocklington_part(n as nat, f as nat);
}

/// A number is prime if one certified prime factor of its predecessor is above its
/// square root.
proof fn lemma_one_factor(n: u64, q: u64, a: u64)
    requires
        a < n < q * q,
        2 <= a < certificate::BASES,
        arith::prime(q as nat),
        arith::divides(q as nat, (n - 1) as nat),
        certificate_holds(n, q, a),
    ensures
        arith::prime(n as nat),
{
    lemma_certificate(n, q, a);
    lemma_part(n, q);
}

/// No number from two to `d` but `n` itself divides `n`.
spec fn indivisible(n: u64, d: u64) -> bool
    decreases d,
{
    if d < 2 {
        true
    } else {
        (d == n || n % d != 0) && indivisible(n, (d - 1) as u64)
    }
}

proof fn lemma_indivisible_by(n: u64, d: u64, e: u64)
    requires
        indivisible(n, d),
        2 <= e <= d,
        e != n,
    ensures
        n % e != 0,
    decreases d,
{
    if e < d {
        lemma_indivisible_by(n, (d - 1) as u64, e);
    }
}

/// Trial division up to the square root.
proof fn lemma_indivisible(n: u64, d: u64)
    requires
        n >= 2,
        n < d * d,
        indivisible(n, d),
    ensures
        arith::prime(n as nat),
{
    if !arith::prime(n as nat) {
        let p = arith::lemma_small_prime_divisor(n as nat);
        assert(p <= d && p < n) by (nonlinear_arith)
            requires
                p * p <= n,
                n < d * d,
                p >= 2,
        ;
        lemma_indivisible_by(n, d, p as u64);
    }
}

/// Primes that trial division shows.
pub proof fn lemma_small_primes()
    ensures
        arith::prime(2),
        arith::prime(3),
        arith::prime(5),
        arith::prime(7),
        arith::prime(11),
        arith::prime(13),
        arith::prime(17),
        arith::prime(19),
        arith::prime(23),
        arith::prime(29),
        arith::prime(31),
        arith::prime(37),
        arith::prime(41),
        arith::prime(43),
        arith::prime(47),
        arith::prime(59),
        arith::prime(61),
        arith::prime(83),
        arith::prime(89),
        arith::prime(97),
        arith::prime(101),
        arith::prime(151),
        arith::prime(181),
        arith::prime(197),
        arith::prime(199),
        arith::prime(241),
        arith::prime(307),
        arith::prime(331),
        arith::prime(353),
        arith::prime(617),
        arith::prime(643),
        arith::prime(881),
        arith::prime(1_237),
        arith::prime(1_321),
        arith::prime(1_609),
        arith::prime(1_999),
        arith::prime(2_503),
        arith::prime(3_571),
        arith::prime(3_907),
        arith::prime(3_911),
        arith::prime(5_843),
        arith::prime(6_121),
        arith::prime(50_551),
        arith::prime(58_099),
{
    assert(indivisible(2, 2)
        && indivisible(3, 2)
        && indivisible(5, 3)
        && indivisible(7, 3)
        && indivisible(11, 4)
        && indivisible(13, 4)
        && indivisible(17, 5)
        && indivisible(19, 5)
        && indivisible(23, 5)
        && indivisible(29, 6)
        && indivisible(31, 6)
        && indivisible(37, 7)
        && indivisible(41, 7)
        && indivisible(43, 7)
        && indivisible(47, 7)
        && indivisible(59, 8)
        && indivisible(61, 8)
        && indivisible(83, 10)
        && indivisible(89, 10)
        && indivisible(97, 10)
        && indivisible(101, 11)
        && indivisible(151, 13)
        && indivisible(181, 14)
        && indivisible(197, 15)
        && indivisible(199, 15)
        && indivisible(241, 16)
        && indivisible(307, 18)
        && indivisible(331, 19)
        && indivisible(353, 19)
        && indivisible(617, 25)
        && indivisible(643, 26)
        && indivisible(881, 30)
        && indivisible(1_237, 36)
        && indivisible(1_321, 37)
        && indivisible(1_609, 41)
        && indivisible(1_999, 45)
        && indivisible(2_503, 51)
        && indivisible(3_571, 60)
        && indivisible(3_907, 63)
        && indivisible(3_911, 63)
        && indivisible(5_843, 77)
        && indivisible(6_121, 79)
        && indivisible(50_551, 225)
        && indivisible(58_099, 242)) by (bit_vector);
    lemma_indivisible(2, 2);
    lemma_indivisible(3, 2);
    lemma_indivisible(5, 3);
    lemma_indivisible(7, 3);
    lemma_indivisible(11, 4);
    lemma_indivisible(13, 4);
    lemma_indivisible(17, 5);
    lemma_indivisible(19, 5);
    lemma_indivisible(23, 5);
    lemma_indivisible(29, 6);
    lemma_indivisible(31, 6);
    lemma_indivisible(37, 7);
    lemma_indivisible(41, 7);
    lemma_indivisible(43, 7);
    lemma_indivisible(47, 7);
    lemma_indivisible(59, 8);
    lemma_indivisible(61, 8);
    lemma_indivisible(83, 10);
    lemma_indivisible(89, 10);
    lemma_indivisible(97, 10);
    lemma_indivisible(101, 11);
    lemma_indivisible(151, 13);
    lemma_indivisible(181, 14);
    lemma_indivisible(197, 15);
    lemma_indivisible(199, 15);
    lemma_indivisible(241, 16);
    lemma_indivisible(307, 18);
    lemma_indivisible(331, 19);
    lemma_indivisible(353, 19);
    lemma_indivisible(617, 25);
    lemma_indivisible(643, 26);
    lemma_indivisible(881, 30);
    lemma_indivisible(1_237, 36);
    lemma_indivisible(1_321, 37);
    lemma_indivisible(1_609, 41);
    lemma_indivisible(1_999, 45);
    lemma_indivisible(2_503, 51);
    lemma_indivisible(3_571, 60);
    lemma_indivisible(3_907, 63);
    lemma_indivisible(3_911, 63);
    lemma_indivisible(5_843, 77);
    lemma_indivisible(6_121, 79);
    lemma_indivisible(50_551, 225);
    lemma_indivisible(58_099, 242);
}

/// Primes that divide the predecessors of larger ones.
proof fn lemma_factor_primes()
    ensures
        arith::prime(116_279),
        arith::prime(242_483),
        arith::prime(250_049),
        arith::prime(327_209),
        arith::prime(1_136_363),
        arith::prime(1_428_571),
        arith::prime(4_008_551),
        arith::prime(8_060_489),
        arith::prime(18_046_081),
        arith::prime(22_605_091),
        arith::prime(11_363_636_363_636_363),
        arith::prime(2_272_727),
        arith::prime(26_005_097),
        arith::prime(2_693_746_273),
        arith::prime(1_131_221_719_457),
        arith::prime(22_727_272_727_272_727),
{
    lemma_small_primes();
    assert(certificate_holds(116_279, 1_237, 2)
        && certificate_holds(242_483, 3_911, 2)
        && certificate_holds(250_049, 3_907, 2)
        && certificate_holds(327_209, 5_843, 2)
        && certificate_holds(1_136_363, 2_503, 2)
        && certificate_holds(1_428_571, 3, 2)
        && certificate_holds(1_428_571, 11, 2)
        && certificate_holds(1_428_571, 37, 2)
        && certificate_holds(4_008_551, 5, 2)
        && certificate_holds(4_008_551, 881, 2)
        && certificate_holds(8_060_489, 23, 2)
        && certificate_holds(8_060_489, 617, 2)
        && certificate_holds(18_046_081, 2, 17)
        && certificate_holds(18_046_081, 13, 2)
        && certificate_holds(18_046_081, 241, 2)
        && certificate_holds(22_605_091, 181, 2)
        && certificate_holds(11_363_636_363_636_363, 6_121, 2)
        && certificate_holds(11_363_636_363_636_363, 58_099, 2)
        && certificate_holds(2_272_727, 1_136_363, 2)
        && certificate_holds(26_005_097, 250_049, 2)
        && certificate_holds(2_693_746_273, 4_008_551, 2)
        && certificate_holds(1_131_221_719_457, 2, 3)
        && certificate_holds(1_131_221_719_457, 327_209, 2)
        && certificate_holds(22_727_272_727_272_727, 11_363_636_363_636_363, 2)) by (bit_vector);
    lemma_one_factor(116_279, 1_237, 2);
    lemma_one_factor(242_483, 3_911, 2);
    lemma_one_factor(250_049, 3_907, 2);
    lemma_one_factor(327_209, 5_843, 2);
    lemma_one_factor(1_136_363, 2_503, 2);
    lemma_certificate(1_428_571, 3, 2);
    lemma_certificate(1_428_571, 11, 2);
    lemma_certificate(1_428_571, 37, 2);
    lemma_part_product(1_428_571, 3, 11);
    lemma_part_product(1_428_571, 33, 37);
    lemma_part(1_428_571, 1_221);
    lemma_certificate(4_008_551, 5, 2);
    lemma_certificate(4_008_551, 881, 2);
    lemma_part_product(4_008_551, 5, 881);
    lemma_part(4_008_551, 4_405);
    lemma_certificate(8_060_489, 23, 2);
    lemma_certificate(8_060_489, 617, 2);
    lemma_part_product(8_060_489, 23, 617);
    lemma_part(8_060_489, 14_191);
    lemma_certificate(18_046_081, 2, 17);
    lemma_certificate(18_046_081, 13, 2);
    lemma_certificate(18_046_081, 241, 2);
    lemma_part_product(18_046_081, 2, 13);
    lemma_part_product(18_046_081, 26, 241);
    lemma_part(18_046_081, 6_266);
    lemma_certificate(22_605_091, 181, 2);
    lemma_part_product(22_605_091, 181, 181);
    lemma_part(22_605_091, 32_761);
    lemma_certificate(11_363_636_363_636_363, 6_121, 2);
    lemma_certificate(11_363_636_363_636_363, 58_099, 2);
    lemma_part_product(11_363_636_363_636_363, 6_121, 58_099);
    lemma_part(11_363_636_363_636_363, 355_623_979);
    lemma_one_factor(2_272_727, 1_136_363, 2);
    lemma_one_factor(26_005_097, 250_049, 2);
    lemma_one_factor(2_693_746_273, 4_008_551, 2);
    lemma_certificate(1_131_221_719_457, 2, 3);
    lemma_certificate(1_131_221_719_457, 327_209, 2);
    lemma_part_product(1_131_221_719_457, 2, 2);
    lemma_part_product(1_131_221_719_457, 4, 327_209);
    lemma_part(1_131_221_719_457, 1_308_836);
    lemma_one_factor(22_727_272_727_272_727, 11_363_636_363_636_363, 2);
}

/// The primes that the numbers of a run are made of.
pub proof fn lemma_known_primes()
    ensures
        arith::prime(99_989),
        arith::prime(99_991),
        arith::prime(154_321),
        arith::prime(179_951),
        arith::prime(12_499_999),
        arith::prime(99_999_959),
        arith::prime(999_999_751),
        arith::prime(999_999_883),
        arith::prime(999_999_937),
        arith::prime(2_147_483_647),
        arith::prime(2_305_843_009_213_693_951),
        arith::prime(99_999_941),
        arith::prime(99_999_971),
        arith::prime(999_999_893),
        arith::prime(4_294_967_279),
        arith::prime(4_294_967_291),
        arith::prime(3_203_431_780_337),
        arith::prime(9_999_999_999_999_937),
        arith::prime(99_999_989),
        arith::prime(1_000_000_000_039),
        arith::prime(999_999_999_999_989),
        arith::prime(999_999_999_999_999_877),
        arith::prime(999_999_999_999_999_989),
{
    lemma_small_primes();
    lemma_factor_primes();
    assert(certificate_holds(99_989, 3_571, 2)
        && certificate_holds(99_991, 5, 2)
        && certificate_holds(99_991, 101, 2)
        && certificate_holds(154_321, 643, 2)
        && certificate_holds(179_951, 59, 2)
        && certificate_holds(179_951, 61, 3)
        && certificate_holds(12_499_999, 7, 2)
        && certificate_holds(12_499_999, 17, 2)
        && certificate_holds(12_499_999, 41, 2)
        && certificate_holds(99_999_959, 197, 2)
        && certificate_holds(99_999_959, 353, 2)
        && certificate_holds(999_999_751, 23, 2)
        && certificate_holds(999_999_751, 1_999, 2)
        && certificate_holds(999_999_883, 50_551, 2)
        && certificate_holds(999_999_937, 83, 2)
        && certificate_holds(999_999_937, 1_609, 2)
        && certificate_holds(2_147_483_647, 151, 3)
        && certificate_holds(2_147_483_647, 331, 3)
        && certificate_holds(2_305_843_009_213_693_951, 31, 3)
        && certificate_holds(2_305_843_009_213_693_951, 151, 3)
        && certificate_holds(2_305_843_009_213_693_951, 331, 3)
        && certificate_holds(2_305_843_009_213_693_951, 1_321, 3)
        && certificate_holds(99_999_941, 116_279, 2)
        && certificate_holds(99_999_971, 1_428_571, 2)
        && certificate_holds(999_999_893, 242_483, 2)
        && certificate_holds(4_294_967_279, 18_046_081, 2)
        && certificate_holds(4_294_967_291, 22_605_091, 2)
        && certificate_holds(3_203_431_780_337, 8_060_489, 3)
        && certificate_holds(9_999_999_999_999_937, 3, 2)
        && certificate_holds(9_999_999_999_999_937, 12_499_999, 2)
        && certificate_holds(99_999_989, 2_272_727, 2)
        && certificate_holds(1_000_000_000_039, 26_005_097, 2)
        && certificate_holds(999_999_999_999_989, 1_131_221_719_457, 2)
        && certificate_holds(999_999_999_999_999_877, 2_693_746_273, 2)
        && certificate_holds(999_999_999_999_999_989, 22_727_272_727_272_727, 2)) by (bit_vector);
    lemma_one_factor(99_989, 3_571, 2);
    lemma_certificate(99_991, 5, 2);
    lemma_certificate(99_991, 101, 2);
    lemma_part_product(99_991, 5, 101);
    lemma_part(99_991, 505);
    lemma_one_factor(154_321, 643, 2);
    lemma_certificate(179_951, 59, 2);
    lemma_certificate(179_951, 61, 3);
    lemma_part_product(179_951, 59, 61);
    lemma_part(179_951, 3_599);
    lemma_certificate(12_499_999, 7, 2);
    lemma_certificate(12_499_999, 17, 2);
    lemma_certificate(12_499_999, 41, 2);
    lemma_part_product(12_499_999, 7, 17);
    lemma_part_product(12_499_999, 119, 41);
    lemma_part(12_499_999, 4_879);
    lemma_certificate(99_999_959, 197, 2);
    lemma_certificate(99_999_959, 353, 2);
    lemma_part_product(99_999_959, 197, 353);
    lemma_part(99_999_959, 69_541);
    lemma_certificate(999_999_751, 23, 2);
    lemma_certificate(999_999_751, 1_999, 2);
    lemma_part_product(999_999_751, 23, 1_999);
    lemma_part(999_999_751, 45_977);
    lemma_one_factor(999_999_883, 50_551, 2);
    lemma_certificate(999_999_937, 83, 2);
    lemma_certificate(999_999_937, 1_609, 2);
    lemma_part_product(999_999_937, 83, 1_609);
    lemma_part(999_999_937, 133_547);
    lemma_certificate(2_147_483_647, 151, 3);
    lemma_certificate(2_147_483_647, 331, 3);
    lemma_part_product(2_147_483_647, 151, 331);
    lemma_part(2_147_483_647, 49_981);
    lemma_certificate(2_305_843_009_213_693_951, 31, 3);
    lemma_certificate(2_305_843_009_213_693_951, 151, 3);
    lemma_certificate(2_305_843_009_213_693_951, 331, 3);
    lemma_certificate(2_305_843_009_213_693_951, 1_321, 3);
    lemma_part_product(2_305_843_009_213_693_951, 31, 151);
    lemma_part_product(2_305_843_009_213_693_951, 4_681, 331);
    lemma_part_product(2_305_843_009_213_693_951, 1_549_411, 1_321);
    lemma_part(2_305_843_009_213_693_951, 2_046_771_931);
    lemma_one_factor(99_999_941, 116_279, 2);
    lemma_one_factor(99_999_971, 1_428_571, 2);
    lemma_one_factor(999_999_893, 242_483, 2);
    lemma_one_factor(4_294_967_279, 18_046_081, 2);
    lemma_one_factor(4_294_967_291, 22_605_091, 2);
    lemma_one_factor(3_203_431_780_337, 8_060_489, 3);
    lemma_certificate(9_999_999_999_999_937, 3, 2);
    lemma_certificate(9_999_999_999_999_937, 12_499_999, 2);
    lemma_part_product(9_999_999_999_999_937, 3, 3);
    lemma_part_product(9_999_999_999_999_937, 9, 12_499_999);
    lemma_part(9_999_999_999_999_937, 112_499_991);
    lemma_one_factor(99_999_989, 2_272_727, 2);
    lemma_one_factor(1_000_000_000_039, 26_005_097, 2);
    lemma_one_factor(999_999_999_999_989, 1_131_221_719_457, 2);
    lemma_one_factor(999_999_999_999_999_877, 2_693_746_273, 2);
    lemma_one_factor(999_999_999_999_999_989, 22_727_272_727_272_727, 2);
}

} // verus!
