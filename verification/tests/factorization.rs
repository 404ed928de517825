use factor_bench::certificate::certify;
use factor_bench::factor::{factorize, find_least_divisor, sorted_factors, verify_factors};
use factor_bench::modular::{gcd, mod_mul, mod_pow};
use factor_bench::miller_rabin::{miller_rabin, MR_WITNESSES};
use factor_bench::primality::is_prime;
use factor_bench::rho::pollard_brent;

#[test]
fn test_is_prime() {
    assert!(!is_prime(0));
    assert!(!is_prime(1));
    assert!(is_prime(2));
    assert!(is_prime(3));
    assert!(!is_prime(4));
    assert!(is_prime(2_147_483_647)); // M31
    assert!(is_prime(2_305_843_009_213_693_951)); // M61
    assert!(is_prime(9_999_999_999_999_937));
    assert!(!is_prime(561)); // Carmichael number
}

#[test]
fn test_factorize_primes() {
    for p in [2, 3, 7, 2_147_483_647, 9_999_999_999_999_937] {
        let mut factors = Vec::new();
        factorize(p, &mut factors);
        assert_eq!(factors, vec![p], "prime {} should have itself as only factor", p);
    }
}

#[test]
fn test_factorize_powers_of_two() {
    let mut factors = Vec::new();
    factorize(1u64 << 40, &mut factors);
    factors.sort_unstable();
    assert_eq!(factors, vec![2; 40]);
}

#[test]
fn test_factorize_semiprimes() {
    let cases: Vec<(u64, Vec<u64>)> = vec![
        (99_999_971u64 * 99_999_989, vec![99_999_971, 99_999_989]),
        (999_999_937u64 * 999_999_893, vec![999_999_893, 999_999_937]),
        (9_999_991u64 * 9_999_973, vec![9_999_973, 9_999_991]),
    ];
    for (n, expected) in cases {
        let mut factors = Vec::new();
        factorize(n, &mut factors);
        factors.sort_unstable();
        assert_eq!(factors, expected, "factorize({}) failed", n);
    }
}

#[test]
fn test_factorize_highly_composite() {
    // 720720 = 2^4 × 3^2 × 5 × 7 × 11 × 13
    let mut factors = Vec::new();
    factorize(720_720, &mut factors);
    factors.sort_unstable();
    assert_eq!(factors, vec![2, 2, 2, 2, 3, 3, 5, 7, 11, 13]);
}

#[test]
fn test_verify_factors() {
    let n = 999_999_937u64 * 999_999_893;
    let mut factors = Vec::new();
    factorize(n, &mut factors);
    assert!(verify_factors(n, &factors), "product of factors must equal n");
}

#[test]
fn test_gcd() {
    assert_eq!(gcd(12, 8), 4);
    assert_eq!(gcd(0, 5), 5);
    assert_eq!(gcd(7, 0), 7);
    assert_eq!(gcd(17, 13), 1);
}

#[test]
fn gcd_edges() {
    assert_eq!(gcd(0, 0), 0);
    assert_eq!(gcd(1 << 63, 1 << 40), 1 << 40);
    assert_eq!(gcd(u64::MAX, u64::MAX), u64::MAX);
    assert_eq!(gcd(u64::MAX, 3), 3);
    assert_eq!(gcd(48, 180), 12);
    assert_eq!(gcd(180, 48), 12);
}

#[test]
fn modular_arithmetic_values() {
    assert_eq!(mod_mul(7, 8, 10), 6);
    assert_eq!(mod_mul(u64::MAX, u64::MAX, u64::MAX - 1), 1);
    assert_eq!(mod_pow(2, 10, 1_000), 24);
    assert_eq!(mod_pow(3, 200, 13), 9);
    assert_eq!(mod_pow(u64::MAX, u64::MAX, 1 << 32), 4_294_967_295);
    assert_eq!(mod_pow(5, 0, 7), 1);
    // The exponent zero gives one even for the modulus one.
    assert_eq!(mod_pow(5, 0, 1), 1);
    assert_eq!(mod_pow(5, 3, 1), 0);
}

#[test]
fn is_prime_agrees_with_trial_division() {
    for n in 0u64..20_000 {
        let mut prime = n >= 2;
        let mut d = 2;
        while d * d <= n {
            if n % d == 0 {
                prime = false;
            }
            d += 1;
        }
        assert_eq!(is_prime(n), prime, "{}", n);
    }
}

#[test]
fn is_prime_refuses_strong_pseudoprimes() {
    // Strong pseudoprimes to the first one, two, .. prime bases.
    for n in [
        2_047u64,
        1_373_653,
        25_326_001,
        3_215_031_751,
        2_152_302_898_747,
        3_474_749_660_383,
        341_550_071_728_321,
        3_825_123_056_546_413_051,
    ] {
        assert!(!is_prime(n), "{}", n);
        assert!(sorted_factors(n).len() >= 2);
    }
}

#[test]
fn is_prime_at_the_top() {
    assert!(is_prime(18_446_744_073_709_551_557)); // 2^64 - 59
    assert!(!is_prime(u64::MAX));
    for w in MR_WITNESSES {
        assert!(is_prime(w));
        assert!(!is_prime(w * w));
    }
}

#[test]
fn miller_rabin_agrees_with_is_prime() {
    for n in 0u64..20_000 {
        assert_eq!(miller_rabin(n), is_prime(n), "{}", n);
    }
    for n in (u64::MAX - 2_000)..=u64::MAX {
        assert_eq!(miller_rabin(n), is_prime(n), "{}", n);
    }
}

#[test]
fn certificates() {
    assert!(certify(101, &vec![2, 2, 5, 5]));
    assert!(certify(2_147_483_647, &vec![2, 3, 3, 7, 11, 31, 151, 331]));
    // No certificate exists for a composite number, not even a Carmichael one.
    assert!(!certify(91, &vec![2, 3, 5]));
    assert!(!certify(1_729, &vec![2, 3]));
    assert!(!certify(561, &vec![2, 5, 7]));
    // Nothing is to be certified of two.
    assert!(certify(2, &vec![]));
}

#[test]
fn least_divisors() {
    assert_eq!(find_least_divisor(2), 2);
    assert_eq!(find_least_divisor(4), 2);
    assert_eq!(find_least_divisor(35), 5);
    assert_eq!(find_least_divisor(49), 7);
    assert_eq!(find_least_divisor(97), 97);
    assert_eq!(find_least_divisor(1_000_003u64 * 1_000_033), 1_000_003);
}

#[test]
fn rho_finds_a_divisor() {
    let n = 9_999_991u64 * 9_999_973;
    for c in 1..20u64 {
        let d = pollard_brent(n, c);
        assert!(d > 1 && n % d == 0, "c = {}", c);
    }
    // 8051 = 83 × 97
    assert_eq!(pollard_brent(8_051, 1), 97);
    // A prime has no proper divisor.
    assert_eq!(pollard_brent(101, 1), 101);
}

#[test]
fn rho_constant_counts_modulo_n() {
    let n = 8_051u64;
    for c in 0..50u64 {
        assert_eq!(pollard_brent(n, c), pollard_brent(n, c + n));
    }
    // The sum of a residue and the constant may exceed a u64.
    let m = 4_294_967_291u64 * 4_294_967_279;
    assert_eq!(pollard_brent(m, 1), pollard_brent(m, m + 1));
}

#[test]
fn factorize_nothing() {
    for n in [0u64, 1] {
        let mut factors = vec![42];
        factorize(n, &mut factors);
        assert_eq!(factors, vec![42]);
    }
}

#[test]
fn factorize_appends() {
    let mut factors = vec![5];
    factorize(6, &mut factors);
    assert_eq!(factors, vec![5, 2, 3]);
}

#[test]
fn factors_multiply_up_and_are_prime() {
    for n in 1u64..5_000 {
        let factors = sorted_factors(n);
        assert!(verify_factors(n, &factors));
        for &f in &factors {
            assert!(is_prime(f));
        }
        for pair in factors.windows(2) {
            assert!(pair[0] <= pair[1]);
        }
    }
}

#[test]
fn factorize_prime_powers() {
    assert_eq!(sorted_factors(29 * 29), vec![29, 29]);
    assert_eq!(sorted_factors(31 * 31 * 31), vec![31, 31, 31]);
    assert_eq!(sorted_factors(1_000_003u64 * 1_000_003), vec![1_000_003, 1_000_003]);
    assert_eq!(sorted_factors(4_294_967_291u64 * 4_294_967_291), vec![4_294_967_291; 2]);
    assert_eq!(sorted_factors(u64::MAX), vec![3, 5, 17, 257, 641, 65_537, 6_700_417]);
}

#[test]
fn verify_factors_cases() {
    assert!(verify_factors(12, &[2, 2, 3]));
    assert!(!verify_factors(12, &[2, 3]));
    assert!(verify_factors(1, &[]));
    assert!(!verify_factors(0, &[]));
    assert!(verify_factors(0, &[7, 0]));
    // An overflow on the way is a refusal, whatever follows.
    assert!(!verify_factors(0, &[u64::MAX, 2, 0]));
    assert!(!verify_factors(0, &[1 << 32, 1 << 32]));
}
