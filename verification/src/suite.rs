//! The numbers that a benchmark run factorizes.

use crate::arith;
use crate::display;
use crate::display::decimal_string;
use crate::known_primes;
use vstd::arithmetic::power::*;
use vstd::prelude::*;
use vstd::string::*;

verus! {

/// A number to factorize, with a label.
pub struct TestCase {
    pub label: &'static str,
    pub number: u64,
}

impl TestCase {
    /// The case has this label and this number.
    pub open spec fn equals(&self, label: Seq<char>, number: int) -> bool {
        self.label@ == label && self.number == number
    }
}

/// The product of two known powers of `b` is a power of `b`.
proof fn lemma_pow_product(b: int, m: nat, n: nat, x: int, y: int)
    requires
        pow(b, m) == x,
        pow(b, n) == y,
    ensures
        pow(b, m + n) == x * y,
{
    lemma_pow_adds(b, m, n);
}

/// The powers that the cases are made of.
pub proof fn lemma_powers()
    ensures
        pow(2, 3) == 8,
        pow(2, 20) == 1_048_576,
        pow(2, 31) == 2_147_483_648,
        pow(2, 40) == 1_099_511_627_776,
        pow(2, 50) == 1_125_899_906_842_624,
        pow(2, 59) == 576_460_752_303_423_488,
        pow(2, 61) == 2_305_843_009_213_693_952,
        pow(2, 63) == 9_223_372_036_854_775_808,
        pow(3, 3) == 27,
        pow(3, 10) == 59_049,
        pow(5, 3) == 125,
        pow(7, 3) == 343,
        pow(7, 19) == 11_398_895_185_373_143,
        pow(10, 7) == 10_000_000,
        pow(10, 8) == 100_000_000,
        pow(10, 9) == 1_000_000_000,
        pow(10, 10) == 10_000_000_000,
        pow(10, 12) == 1_000_000_000_000,
        pow(10, 13) == 10_000_000_000_000,
        pow(10, 14) == 100_000_000_000_000,
        pow(10, 15) == 1_000_000_000_000_000,
        pow(10, 16) == 10_000_000_000_000_000,
        pow(10, 17) == 100_000_000_000_000_000,
        pow(10, 18) == 1_000_000_000_000_000_000,
{
    assert(pow(2, 3) == 8 && pow(2, 9) == 512 && pow(2, 10) == 1_024) by {
        reveal_with_fuel(pow, 11);
    }
    assert(pow(3, 3) == 27 && pow(3, 10) == 59_049) by {
        reveal_with_fuel(pow, 11);
    }
    assert(pow(5, 3) == 125) by {
        reveal_with_fuel(pow, 4);
    }
    assert(pow(7, 3) == 343 && pow(7, 9) == 40_353_607 && pow(7, 10) == 282_475_249) by {
        reveal_with_fuel(pow, 11);
    }
    assert(pow(10, 3) == 1_000 && pow(10, 4) == 10_000 && pow(10, 6) == 1_000_000) by {
        reveal_with_fuel(pow, 7);
    }
    lemma_pow1(10);
    lemma_pow1(2);
    lemma_pow_product(2, 10, 10, 1_024, 1_024);
    lemma_pow_product(2, 20, 10, 1_048_576, 1_024);
    lemma_pow_product(2, 30, 1, 1_073_741_824, 2);
    lemma_pow_product(2, 20, 20, 1_048_576, 1_048_576);
    lemma_pow_product(2, 40, 10, 1_099_511_627_776, 1_024);
    lemma_pow_product(2, 50, 9, 1_125_899_906_842_624, 512);
    lemma_pow_product(2, 30, 30, 1_073_741_824, 1_073_741_824);
    lemma_pow_product(2, 60, 1, 1_152_921_504_606_846_976, 2);
    lemma_pow_product(2, 60, 3, 1_152_921_504_606_846_976, 8);
    lemma_pow_product(7, 10, 9, 282_475_249, 40_353_607);
    lemma_pow_product(10, 6, 1, 1_000_000, 10);
    lemma_pow_product(10, 4, 4, 10_000, 10_000);
    lemma_pow_product(10, 6, 3, 1_000_000, 1_000);
    lemma_pow_product(10, 6, 4, 1_000_000, 10_000);
    lemma_pow_product(10, 6, 6, 1_000_000, 1_000_000);
    lemma_pow_product(10, 12, 3, 1_000_000_000_000, 1_000);
    lemma_pow_product(10, 12, 4, 1_000_000_000_000, 10_000);
    lemma_pow_product(10, 12, 6, 1_000_000_000_000, 1_000_000);
    lemma_pow_product(10, 12, 1, 1_000_000_000_000, 10);
    lemma_pow_product(10, 7, 7, 10_000_000, 10_000_000);
    lemma_pow_product(10, 10, 7, 10_000_000_000, 10_000_000);
}

/// Products of two primes of 8 to 10 digits.
pub open spec fn large_semiprimes_cases(cases: Seq<TestCase>) -> bool {
    &&& cases.len() == 6
    &&& cases[0].equals("99,999,971 × 99,999,989 (8-digit × 8-digit)"@, 99_999_971int * 99_999_989)
    &&& cases[1].equals("999,999,937 × 999,999,893 (9-digit × 9-digit)"@, 999_999_937int * 999_999_893)
    &&& cases[2].equals("999,999,751 × 999,999,883 (9-digit × 9-digit)"@, 999_999_751int * 999_999_883)
    &&& cases[3].equals("99,999,989 × 999,999,937 (8-digit × 9-digit)"@, 99_999_989int * 999_999_937)
    &&& cases[4].equals("99,999,989² (perfect square semiprime)"@, 99_999_989int * 99_999_989)
    &&& cases[5].equals("4,294,967,291 × 4,294,967,279 (near 2^32)"@, 4_294_967_291int * 4_294_967_279)
}

/// Products of two primes of 8 to 10 digits.
pub fn category_large_semiprimes() -> (cases: Vec<TestCase>)
    ensures
        large_semiprimes_cases(cases@),
{
    vec![
        TestCase { label: "99,999,971 × 99,999,989 (8-digit × 8-digit)", number: 99_999_971u64 * 99_999_989 },
        TestCase { label: "999,999,937 × 999,999,893 (9-digit × 9-digit)", number: 999_999_937u64 * 999_999_893 },
        TestCase { label: "999,999,751 × 999,999,883 (9-digit × 9-digit)", number: 999_999_751u64 * 999_999_883 },
        TestCase { label: "99,999,989 × 999,999,937 (8-digit × 9-digit)", number: 99_999_989u64 * 999_999_937 },
        TestCase { label: "99,999,989² (perfect square semiprime)", number: 99_999_989u64 * 99_999_989 },
        TestCase { label: "4,294,967,291 × 4,294,967,279 (near 2^32)", number: 4_294_967_291u64 * 4_294_967_279 },
    ]
}

/// Numbers with many small factors.
pub open spec fn highly_composite_cases(cases: Seq<TestCase>) -> bool {
    &&& cases.len() == 8
    &&& cases[0].equals("2^40 (40 prime factors)"@, pow(2, 40))
    &&& cases[1].equals("2^50 (50 prime factors)"@, pow(2, 50))
    &&& cases[2].equals("2^63 (63 prime factors)"@, pow(2, 63))
    &&& cases[3].equals("20! (factorial, 36 prime factors)"@, 2_432_902_008_176_640_000)
    &&& cases[4].equals("2^3 × 3^3 × 5^3 × 7^3"@, pow(2, 3) * pow(3, 3) * pow(5, 3) * pow(7, 3))
    &&& cases[5].equals("720,720 (highly composite, 10 factors)"@, 720_720)
    &&& cases[6].equals("Product of first 15 primes"@, 2int * 3 * 5 * 7 * 11 * 13 * 17 * 19 * 23 * 29 * 31 * 37 * 41 * 43 * 47)
    &&& cases[7].equals("2^20 × 3^10 × 7^3"@, pow(2, 20) * pow(3, 10) * pow(7, 3))
}

/// Numbers with many small factors.
pub fn category_highly_composite() -> (cases: Vec<TestCase>)
    ensures
        highly_composite_cases(cases@),
{
    proof {
        lemma_powers();
    }
    vec![
        TestCase { label: "2^40 (40 prime factors)", number: 1_099_511_627_776 },
        TestCase { label: "2^50 (50 prime factors)", number: 1_125_899_906_842_624 },
        TestCase { label: "2^63 (63 prime factors)", number: 9_223_372_036_854_775_808 },
        TestCase { label: "20! (factorial, 36 prime factors)", number: 2_432_902_008_176_640_000 },
        TestCase { label: "2^3 × 3^3 × 5^3 × 7^3", number: 8u64 * 27 * 125 * 343 },
        TestCase { label: "720,720 (highly composite, 10 factors)", number: 720_720 },
        TestCase { label: "Product of first 15 primes", number: 2u64 * 3 * 5 * 7 * 11 * 13 * 17 * 19 * 23 * 29 * 31 * 37 * 41 * 43 * 47 },
        TestCase { label: "2^20 × 3^10 × 7^3", number: 1_048_576u64 * 59_049 * 343 },
    ]
}

/// Known large primes, of at most 18 digits.
pub open spec fn primes_cases(cases: Seq<TestCase>) -> bool {
    &&& cases.len() == 6
    &&& cases[0].equals("10^16 − 63 (16 digits)"@, pow(10, 16) - 63)
    &&& cases[1].equals("10^15 − 11 (15 digits)"@, pow(10, 15) - 11)
    &&& cases[2].equals("2^31 − 1 = Mersenne prime M31"@, pow(2, 31) - 1)
    &&& cases[3].equals("10^12 + 39 (13 digits)"@, pow(10, 12) + 39)
    &&& cases[4].equals("~10^18 (18 digits, verified prime)"@, 999_999_999_999_999_877)
    &&& cases[5].equals("10^18 − 11 (18 digits)"@, pow(10, 18) - 11)
}

/// Known large primes, of at most 18 digits.
pub fn category_primes() -> (cases: Vec<TestCase>)
    ensures
        primes_cases(cases@),
{
    proof {
        lemma_powers();
    }
    vec![
        TestCase { label: "10^16 − 63 (16 digits)", number: 9_999_999_999_999_937 },
        TestCase { label: "10^15 − 11 (15 digits)", number: 999_999_999_999_989 },
        TestCase { label: "2^31 − 1 = Mersenne prime M31", number: 2_147_483_647 },
        TestCase { label: "10^12 + 39 (13 digits)", number: 1_000_000_000_039 },
        TestCase { label: "~10^18 (18 digits, verified prime)", number: 999_999_999_999_999_877 },
        TestCase { label: "10^18 − 11 (18 digits)", number: 999_999_999_999_999_989 },
    ]
}

/// Numbers of varied difficulty.
pub open spec fn stress_mixed_cases(cases: Seq<TestCase>) -> bool {
    &&& cases.len() == 8
    &&& cases[0].equals("97 × 99,989 × 99,991 (3 primes)"@, 97int * 99_989 * 99_991)
    &&& cases[1].equals("29 × (10^15 − 11) (small × large prime)"@, 29int * (pow(10, 15) - 11))
    &&& cases[2].equals("7^19 (large prime power)"@, pow(7, 19))
    &&& cases[3].equals("RSA-like: 99,999,959 × 99,999,941"@, 99_999_959int * 99_999_941)
    &&& cases[4].equals("M31² = (2^31 − 1)² (Mersenne squared)"@, (pow(2, 31) - 1) * (pow(2, 31) - 1))
    &&& cases[5].equals("Fibonacci(44) = 701,408,733"@, 701_408_733)
    &&& cases[6].equals("10^18 = 2^18 × 5^18 (power of 10)"@, pow(10, 18))
    &&& cases[7].equals("Carmichael number: 561 = 3 × 11 × 17"@, 3int * 11 * 17)
}

/// Numbers of varied difficulty.
pub fn category_stress_mixed() -> (cases: Vec<TestCase>)
    ensures
        stress_mixed_cases(cases@),
{
    proof {
        lemma_powers();
    }
    vec![
        TestCase { label: "97 × 99,989 × 99,991 (3 primes)", number: 97u64 * 99_989 * 99_991 },
        TestCase { label: "29 × (10^15 − 11) (small × large prime)", number: 29u64 * 999_999_999_999_989 },
        TestCase { label: "7^19 (large prime power)", number: 11_398_895_185_373_143 },
        TestCase { label: "RSA-like: 99,999,959 × 99,999,941", number: 99_999_959u64 * 99_999_941 },
        TestCase { label: "M31² = (2^31 − 1)² (Mersenne squared)", number: 2_147_483_647u64 * 2_147_483_647 },
        TestCase { label: "Fibonacci(44) = 701,408,733", number: 701_408_733 },
        TestCase { label: "10^18 = 2^18 × 5^18 (power of 10)", number: 1_000_000_000_000_000_000 },
        TestCase { label: "Carmichael number: 561 = 3 × 11 × 17", number: 561 },
    ]
}

/// Boundary values.
pub open spec fn edge_cases(cases: Seq<TestCase>) -> bool {
    &&& cases.len() == 6
    &&& cases[0].equals("Smallest prime: 2"@, 2)
    &&& cases[1].equals("Largest single-digit prime: 7"@, 7)
    &&& cases[2].equals("Large Carmichael: 41,041 = 7 × 11 × 13 × 41"@, 7int * 11 * 13 * 41)
    &&& cases[3].equals("10^16 − 64 (adjacent to known prime)"@, pow(10, 16) - 64)
    &&& cases[4].equals("2^59 − 1 (composite Mersenne)"@, pow(2, 59) - 1)
    &&& cases[5].equals("Perfect cube: 9,261³ = 3³ × 7³ × 7³... (deep recursion)"@, 9_261int * 9_261 * 9_261)
}

/// Boundary values.
pub fn category_edge_cases() -> (cases: Vec<TestCase>)
    ensures
        edge_cases(cases@),
{
    proof {
        lemma_powers();
    }
    vec![
        TestCase { label: "Smallest prime: 2", number: 2 },
        TestCase { label: "Largest single-digit prime: 7", number: 7 },
        TestCase { label: "Large Carmichael: 41,041 = 7 × 11 × 13 × 41", number: 41_041 },
        TestCase { label: "10^16 − 64 (adjacent to known prime)", number: 9_999_999_999_999_936 },
        TestCase { label: "2^59 − 1 (composite Mersenne)", number: 576_460_752_303_423_487 },
        TestCase { label: "Perfect cube: 9,261³ = 3³ × 7³ × 7³... (deep recursion)", number: 9_261u64 * 9_261 * 9_261 },
    ]
}

/// A category of cases.
pub struct CategoryDef {
    pub name: &'static str,
    pub description: &'static str,
    pub cases: Vec<TestCase>,
}

impl CategoryDef {
    /// The category has this name and this description.
    pub open spec fn equals(&self, name: Seq<char>, description: Seq<char>) -> bool {
        self.name@ == name && self.description@ == description
    }
}

/// Law: every case of every category is a number with at least one prime factor.
pub proof fn law_numbers_have_factors(cases: Seq<TestCase>)
    requires
        large_semiprimes_cases(cases) || highly_composite_cases(cases) || primes_cases(cases)
            || stress_mixed_cases(cases) || edge_cases(cases),
    ensures
        forall|j: int| 0 <= j < cases.len() ==> 2 <= (#[trigger] cases[j]).number,
{
    lemma_powers();
    assert forall|j: int| 0 <= j < cases.len() implies 2 <= (#[trigger] cases[j]).number by {
        assert(j == 0 || j == 1 || j == 2 || j == 3 || j == 4 || j == 5 || j == 6 || j == 7);
    }
}

/// `n` is the product of the primes `p` and `q`, both of `low` to `high` digits.
pub open spec fn semiprime(n: nat, p: nat, q: nat, low: nat, high: nat) -> bool {
    &&& n == p * q
    &&& arith::prime(p)
    &&& arith::prime(q)
    &&& pow(10, (low - 1) as nat) <= p < pow(10, high)
    &&& pow(10, (low - 1) as nat) <= q < pow(10, high)
}

/// Law: every large semiprime is the product of two primes of 8 to 10 digits.
pub proof fn law_large_semiprimes(cases: Seq<TestCase>)
    requires
        large_semiprimes_cases(cases),
    ensures
        forall|j: int| 0 <= j < cases.len() ==> exists|p: nat, q: nat|
            semiprime((#[trigger] cases[j]).number as nat, p, q, 8, 10),
{
    lemma_powers();
    known_primes::lemma_known_primes();
    assert(semiprime(cases[0].number as nat, 99_999_971, 99_999_989, 8, 10));
    assert(semiprime(cases[1].number as nat, 999_999_937, 999_999_893, 8, 10));
    assert(semiprime(cases[2].number as nat, 999_999_751, 999_999_883, 8, 10));
    assert(semiprime(cases[3].number as nat, 99_999_989, 999_999_937, 8, 10));
    assert(semiprime(cases[4].number as nat, 99_999_989, 99_999_989, 8, 10));
    assert(semiprime(cases[5].number as nat, 4_294_967_291, 4_294_967_279, 8, 10));
}

/// Law: every number of the prime category is a prime of at most 18 digits.
pub proof fn law_primes(cases: Seq<TestCase>)
    requires
        primes_cases(cases),
    ensures
        forall|j: int| 0 <= j < cases.len() ==> arith::prime((#[trigger] cases[j]).number as nat),
        forall|j: int| 0 <= j < cases.len() ==> (#[trigger] cases[j]).number < pow(10, 18),
{
    lemma_powers();
    known_primes::lemma_known_primes();
}

/// The cases of a run, category by category.
pub open spec fn run_cases(
    semiprimes: Seq<TestCase>,
    composites: Seq<TestCase>,
    primes: Seq<TestCase>,
    mixed: Seq<TestCase>,
    edges: Seq<TestCase>,
) -> Seq<TestCase> {
    semiprimes + composites + primes + mixed + edges
}

/// Law: a run factorizes 34 numbers, and no number stands twice in it, within a
/// category or across two of them.
pub proof fn law_numbers_distinct(
    semiprimes: Seq<TestCase>,
    composites: Seq<TestCase>,
    primes: Seq<TestCase>,
    mixed: Seq<TestCase>,
    edges: Seq<TestCase>,
)
    requires
        large_semiprimes_cases(semiprimes),
        highly_composite_cases(composites),
        primes_cases(primes),
        stress_mixed_cases(mixed),
        edge_cases(edges),
    ensures
        run_cases(semiprimes, composites, primes, mixed, edges).len() == 34,
        forall|i: int, j: int|
            0 <= i < j < 34 ==> (#[trigger] run_cases(semiprimes, composites, primes, mixed, edges)[i]).number
                != (#[trigger] run_cases(semiprimes, composites, primes, mixed, edges)[j]).number,
{
    lemma_powers();
}

/// The categories of a run, in their order.
pub open spec fn run_categories(defs: Seq<CategoryDef>) -> bool {
    &&& defs.len() == 5
    &&& defs[0].equals(
        "Large Semiprimes"@,
        "Products of two large primes (verified constructions) — hardest case for Pollard's rho"@,
    )
    &&& large_semiprimes_cases(defs[0].cases@)
    &&& defs[1].equals(
        "Highly Composite"@,
        "Numbers with many small factors — tests recursive decomposition and trial division"@,
    )
    &&& highly_composite_cases(defs[1].cases@)
    &&& defs[2].equals(
        "Prime Detection"@,
        "Known large primes — exercises deterministic Miller-Rabin (no factorization)"@,
    )
    &&& primes_cases(defs[2].cases@)
    &&& defs[3].equals(
        "Stress Mix"@,
        "Varied difficulty: multi-prime products, powers, Carmichael numbers, edge values"@,
    )
    &&& stress_mixed_cases(defs[3].cases@)
    &&& defs[4].equals(
        "Edge Cases"@,
        "Boundary values: tiny primes, composite Mersenne, perfect cubes, adjacent primes"@,
    )
    &&& edge_cases(defs[4].cases@)
}

/// The categories of a run, in their order.
pub fn category_defs() -> (defs: Vec<CategoryDef>)
    ensures
        run_categories(defs@),
{
    vec![
        CategoryDef {
            name: "Large Semiprimes",
            description: "Products of two large primes (verified constructions) — hardest case for Pollard's rho",
            cases: category_large_semiprimes(),
        },
        CategoryDef {
            name: "Highly Composite",
            description: "Numbers with many small factors — tests recursive decomposition and trial division",
            cases: category_highly_composite(),
        },
        CategoryDef {
            name: "Prime Detection",
            description: "Known large primes — exercises deterministic Miller-Rabin (no factorization)",
            cases: category_primes(),
        },
        CategoryDef {
            name: "Stress Mix",
            description: "Varied difficulty: multi-prime products, powers, Carmichael numbers, edge values",
            cases: category_stress_mixed(),
        },
        CategoryDef {
            name: "Edge Cases",
            description: "Boundary values: tiny primes, composite Mersenne, perfect cubes, adjacent primes",
            cases: category_edge_cases(),
        },
    ]
}

/// A number to factorize over and over.
pub struct StressCase {
    pub label: &'static str,
    pub number: u64,
    pub iterations: usize,
}

impl StressCase {
    /// The case has this label, this number and this many repetitions.
    pub open spec fn equals(&self, label: Seq<char>, number: int, iterations: int) -> bool {
        self.label@ == label && self.number == number && self.iterations == iterations
    }
}

/// The stress tests of a run.
pub open spec fn stress_list(cases: Seq<StressCase>) -> bool {
    &&& cases.len() == 3
    &&& cases[0].equals(
        "Hardest semiprime (9×9 digit factors)"@,
        999_999_751int * 999_999_883,
        500,
    )
    &&& cases[1].equals("8×8 digit semiprime"@, 99_999_971int * 99_999_989, 500)
    &&& cases[2].equals("Mersenne prime M61 (primality only)"@, pow(2, 61) - 1, 500)
}

/// Law: the stress tests are on a product of two primes of 9 digits, on one of two
/// primes of 8 digits, and on a prime.
pub proof fn law_stress_numbers(cases: Seq<StressCase>)
    requires
        stress_list(cases),
    ensures
        exists|p: nat, q: nat| semiprime(cases[0].number as nat, p, q, 9, 9),
        exists|p: nat, q: nat| semiprime(cases[1].number as nat, p, q, 8, 8),
        arith::prime(cases[2].number as nat),
{
    lemma_powers();
    known_primes::lemma_known_primes();
    assert(semiprime(cases[0].number as nat, 999_999_751, 999_999_883, 9, 9));
    assert(semiprime(cases[1].number as nat, 99_999_971, 99_999_989, 8, 8));
}

/// The stress tests of a run.
pub fn stress_cases() -> (cases: Vec<StressCase>)
    ensures
        stress_list(cases@),
{
    proof {
        lemma_powers();
    }
    vec![
        StressCase {
            label: "Hardest semiprime (9×9 digit factors)",
            number: 999_999_751u64 * 999_999_883,
            iterations: 500,
        },
        StressCase {
            label: "8×8 digit semiprime",
            number: 99_999_971u64 * 99_999_989,
            iterations: 500,
        },
        StressCase {
            label: "Mersenne prime M61 (primality only)",
            number: 2_305_843_009_213_693_951,
            iterations: 500,
        },
    ]
}

/// The number that the warm-up factorizes.
pub const WARMUP_NUMBER: u64 = 99_999_971 * 99_999_989;

/// How often the warm-up factorizes it.
pub const WARMUP_ROUNDS: usize = 20;

/// The number whose factorizations per second are measured: the hardest of the
/// semiprimes.
pub const HARD_NUMBER: u64 = 999_999_751 * 999_999_883;

/// How many batches the measurement has.
pub const READINESS_BATCHES: usize = 8;

/// How many factorizations a batch of the measurement has.
pub const READINESS_ITERATIONS: usize = 200;

/// The measurement of the throughput.
pub struct ReadinessPlan {
    pub description: String,
    pub number: u64,
    pub total_factorizations: usize,
}

/// The description of a measurement.
pub open spec fn readiness_text(batches: nat, iterations: nat) -> Seq<char> {
    display::decimal(batches) + " batches × "@ + display::decimal(iterations)
        + " iterations of hardest semiprime = "@ + display::decimal(batches * iterations)
        + " total factorizations"@
}

impl ReadinessPlan {
    /// The plan is one of this many batches of this many factorizations.
    pub open spec fn plans(&self, batches: nat, iterations: nat) -> bool {
        &&& self.description@ == readiness_text(batches, iterations)
        &&& self.number == HARD_NUMBER
        &&& self.total_factorizations == batches * iterations
    }
}

/// Law: a plan is of the hardest of the large semiprimes, and counts as many
/// factorizations as its description ends with.
pub proof fn law_readiness_plan(
    plan: ReadinessPlan,
    batches: nat,
    iterations: nat,
    cases: Seq<TestCase>,
)
    requires
        plan.plans(batches, iterations),
        large_semiprimes_cases(cases),
    ensures
        plan.number == cases[2].number,
        plan.total_factorizations == batches * iterations,
        (display::decimal(batches) + " batches × "@).is_prefix_of(plan.description@),
        (display::decimal(plan.total_factorizations as nat)
            + " total factorizations"@).is_suffix_of(plan.description@),
{
    let text = readiness_text(batches, iterations);
    let head = display::decimal(batches) + " batches × "@;
    let tail = display::decimal(batches * iterations) + " total factorizations"@;
    assert(head =~= text.subrange(0, head.len() as int));
    assert(tail =~= text.subrange(text.len() - tail.len(), text.len() as int));
}

/// A measurement over this many batches of this many factorizations.
pub fn readiness_plan(batches: usize, iterations: usize) -> (plan: ReadinessPlan)
    requires
        batches * iterations <= usize::MAX,
    ensures
        plan.plans(batches as nat, iterations as nat),
        plan.description@ == readiness_text(batches as nat, iterations as nat),
        plan.number == 999_999_751int * 999_999_883,
        plan.total_factorizations == batches * iterations,
{
    let total: usize = batches * iterations;
    let batches_text = decimal_string(batches as u64);
    let iterations_text = decimal_string(iterations as u64);
    let total_text = decimal_string(total as u64);
    let mut description = batches_text;
    description.append(" batches × ");
    description.append(iterations_text.as_str());
    description.append(" iterations of hardest semiprime = ");
    description.append(total_text.as_str());
    description.append(" total factorizations");
    ReadinessPlan { description, number: HARD_NUMBER, total_factorizations: total }
}

/// Law: the description of a measurement starts with the number of batches and that of
/// the iterations of each, and ends with their product.
pub proof fn law_readiness_text(batches: nat, iterations: nat)
    ensures
        (display::decimal(batches) + " batches × "@ + display::decimal(iterations)
            + " iterations"@).is_prefix_of(readiness_text(batches, iterations)),
        (" = "@ + display::decimal(batches * iterations)
            + " total factorizations"@).is_suffix_of(readiness_text(batches, iterations)),
{
    reveal_strlit(" iterations");
    reveal_strlit(" = ");
    reveal_strlit(" iterations of hardest semiprime = ");
    let text = readiness_text(batches, iterations);
    let head = display::decimal(batches) + " batches × "@ + display::decimal(iterations)
        + " iterations"@;
    let tail = " = "@ + display::decimal(batches * iterations) + " total factorizations"@;
    assert(head =~= text.subrange(0, head.len() as int));
    assert(tail =~= text.subrange(text.len() - tail.len(), text.len() as int));
}

} // verus!
