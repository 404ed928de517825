use factor_bench::display::{classify_difficulty, decimal_string, factors_display, format_number};
use factor_bench::report::{
    describe, prime_factorization, stress_subject, summarize, BenchmarkCategory,
};
use factor_bench::suite::{
    category_defs, category_edge_cases, category_highly_composite, category_large_semiprimes,
    category_primes, category_stress_mixed, readiness_plan, stress_cases, TestCase, HARD_NUMBER,
    READINESS_BATCHES, READINESS_ITERATIONS, WARMUP_NUMBER,
};

#[test]
fn test_format_number() {
    assert_eq!(format_number(1_000_000), "1,000,000");
    assert_eq!(format_number(42), "42");
    assert_eq!(format_number(999_999_937), "999,999,937");
}

#[test]
fn test_all_categories_verify() {
    let all_cases: Vec<TestCase> = category_large_semiprimes()
        .into_iter()
        .chain(category_highly_composite())
        .chain(category_primes())
        .chain(category_stress_mixed())
        .chain(category_edge_cases())
        .collect();

    for tc in &all_cases {
        let result = prime_factorization(tc.label, tc.number);
        assert!(result.verified, "{}: factors {:?} don't multiply to {}", tc.label, result.factors, tc.number);
    }
}

#[test]
fn format_number_edges() {
    assert_eq!(format_number(0), "0");
    assert_eq!(format_number(7), "7");
    assert_eq!(format_number(100), "100");
    assert_eq!(format_number(999), "999");
    assert_eq!(format_number(1_000), "1,000");
    assert_eq!(format_number(10_203), "10,203");
    assert_eq!(format_number(100_000), "100,000");
    assert_eq!(format_number(u64::MAX), "18,446,744,073,709,551,615");
    assert_eq!(format_number(u64::MAX).replace(',', ""), u64::MAX.to_string());
    for n in 0..3_000u64 {
        assert_ne!(format_number(n), format_number(n + 1));
    }
    assert_eq!(decimal_string(0), "0");
    assert_eq!(decimal_string(1_600), "1600");
}

#[test]
fn factors_display_cases() {
    assert_eq!(factors_display(&[]), "");
    assert_eq!(factors_display(&[7]), "7");
    assert_eq!(factors_display(&[2, 2, 2, 2, 3, 3, 5, 7, 11, 13]), "2^4 × 3^2 × 5 × 7 × 11 × 13");
    assert_eq!(factors_display(&[1_009, 1_009, 2_147_483_647]), "1,009^2 × 2,147,483,647");
    // Only neighbours are drawn together.
    assert_eq!(factors_display(&[2, 3, 2]), "2 × 3 × 2");
}

#[test]
fn classify_difficulty_cases() {
    assert_eq!(classify_difficulty(&[7]), "prime — Miller-Rabin deterministic test");
    assert_eq!(classify_difficulty(&[]), "trivial (largest factor: 1 digits)");
    assert_eq!(classify_difficulty(&[2, 997]), "trivial (largest factor: 3 digits)");
    assert_eq!(classify_difficulty(&[1_009, 2]), "easy (largest factor: 4 digits)");
    assert_eq!(classify_difficulty(&[2, 999_983]), "easy (largest factor: 6 digits)");
    assert_eq!(classify_difficulty(&[2, 1_000_003]), "medium (largest factor: 7 digits)");
    assert_eq!(classify_difficulty(&[2, 1_000_000_007]), "hard (largest factor: 10 digits)");
}

#[test]
fn prime_factorization_of_a_composite() {
    let r = prime_factorization("720,720", 720_720);
    assert_eq!(r.label, "720,720");
    assert_eq!(r.number, 720_720);
    assert_eq!(r.number_display, "720,720");
    assert_eq!(r.factors, vec![2, 2, 2, 2, 3, 3, 5, 7, 11, 13]);
    assert_eq!(r.factorization_display, "2^4 × 3^2 × 5 × 7 × 11 × 13");
    assert!(!r.is_prime);
    assert_eq!(r.num_prime_factors, 10);
    assert_eq!(r.difficulty, "trivial (largest factor: 2 digits)");
    assert!(r.verified);
}

#[test]
fn prime_factorization_of_a_prime() {
    let r = prime_factorization("M31", 2_147_483_647);
    assert!(r.is_prime);
    assert_eq!(r.factors, vec![2_147_483_647]);
    assert_eq!(r.factorization_display, "2,147,483,647");
    assert_eq!(r.difficulty, "prime — Miller-Rabin deterministic test");
    assert!(r.verified);
}

#[test]
fn prime_factorization_of_zero_and_one() {
    let zero = prime_factorization("zero", 0);
    assert!(!zero.verified && !zero.is_prime && zero.factors.is_empty());
    let one = prime_factorization("one", 1);
    assert!(one.verified && !one.is_prime && one.factors.is_empty());
    assert_eq!(one.factorization_display, "");
    assert_eq!(one.difficulty, "trivial (largest factor: 1 digits)");
}

#[test]
fn describe_takes_factors_as_given() {
    let r = describe("wrong", 12, vec![2, 3]);
    assert!(!r.verified);
    assert_eq!(r.num_prime_factors, 2);
    let r = describe("one factor", 12, vec![5]);
    assert!(!r.is_prime && !r.verified);
}

#[test]
fn suite_shape() {
    let defs = category_defs();
    let shape: Vec<(&str, usize)> = defs.iter().map(|d| (d.name, d.cases.len())).collect();
    assert_eq!(
        shape,
        vec![
            ("Large Semiprimes", 6),
            ("Highly Composite", 8),
            ("Prime Detection", 6),
            ("Stress Mix", 8),
            ("Edge Cases", 6),
        ]
    );
    assert!(defs.iter().all(|d| d.cases.iter().all(|c| c.number >= 2)));
    assert_eq!(defs[1].cases[0].number, 1u64 << 40);
    assert_eq!(defs[1].cases[2].number, 1u64 << 63);
    assert_eq!(defs[1].cases[4].number, 2u64.pow(3) * 3u64.pow(3) * 5u64.pow(3) * 7u64.pow(3));
    assert_eq!(defs[1].cases[7].number, 2u64.pow(20) * 3u64.pow(10) * 7u64.pow(3));
    assert_eq!(defs[3].cases[2].number, 7u64.pow(19));
    assert_eq!(defs[4].cases[4].number, (1u64 << 59) - 1);
}

#[test]
fn suite_labels_hold() {
    assert_eq!(prime_factorization("2^40", 1u64 << 40).num_prime_factors, 40);
    assert_eq!(prime_factorization("2^50", 1u64 << 50).num_prime_factors, 50);
    assert_eq!(prime_factorization("2^63", 1u64 << 63).num_prime_factors, 63);
    assert_eq!(prime_factorization("20!", (1..=20u64).product()).num_prime_factors, 36);
    assert_eq!(category_highly_composite()[3].number, (1..=20u64).product::<u64>());
    for tc in category_primes() {
        assert!(prime_factorization(tc.label, tc.number).is_prime, "{}", tc.label);
    }
    for tc in category_large_semiprimes() {
        assert_eq!(prime_factorization(tc.label, tc.number).num_prime_factors, 2, "{}", tc.label);
    }
    assert_eq!(prime_factorization("561", 561).factors, vec![3, 11, 17]);
    assert_eq!(prime_factorization("41,041", 41_041).factors, vec![7, 11, 13, 41]);
}

#[test]
fn large_semiprimes_have_large_factors() {
    for tc in category_large_semiprimes() {
        let r = prime_factorization(tc.label, tc.number);
        assert_eq!(r.factors.len(), 2, "{}", tc.label);
        for p in r.factors {
            assert!((10_000_000..10_000_000_000).contains(&p), "{}: {}", tc.label, p);
        }
    }
    let fourth = &category_large_semiprimes()[3];
    assert_eq!(fourth.label, "99,999,989 × 999,999,937 (8-digit × 9-digit)");
    assert_eq!(fourth.number, 99_999_982_700_000_693);
    assert_eq!(prime_factorization(fourth.label, fourth.number).factors, vec![99_999_989, 999_999_937]);
}

#[test]
fn primes_have_at_most_eighteen_digits() {
    for tc in category_primes() {
        assert!(decimal_string(tc.number).len() <= 18, "{}", tc.label);
    }
    let sixth = &category_primes()[5];
    assert_eq!(sixth.label, "10^18 − 11 (18 digits)");
    assert_eq!(sixth.number, 10u64.pow(18) - 11);
}

#[test]
fn numbers_of_a_run_are_distinct() {
    let mut numbers: Vec<u64> =
        category_defs().iter().flat_map(|d| d.cases.iter().map(|c| c.number)).collect();
    assert_eq!(numbers.len(), 34);
    numbers.sort();
    numbers.dedup();
    assert_eq!(numbers.len(), 34);
}

fn read_back(text: &str) -> Vec<u64> {
    if text.is_empty() {
        return vec![];
    }
    let mut factors = vec![];
    for part in text.split(" × ") {
        let (base, exp) = match part.split_once('^') {
            Some((b, e)) => (b, e.parse::<usize>().unwrap()),
            None => (part, 1),
        };
        assert!(exp >= 2 || !part.contains('^'), "{}", text);
        let base: u64 = base.replace(',', "").parse().unwrap();
        factors.extend(std::iter::repeat(base).take(exp));
    }
    factors
}

#[test]
fn factors_read_back() {
    let lists: Vec<Vec<u64>> = vec![
        vec![],
        vec![7],
        vec![2, 2, 2, 2, 3, 3, 5],
        vec![2, 3, 2],
        vec![3, 3, 2, 2, 3],
        vec![1_000_003, 1_000_003, u64::MAX],
        vec![2; 63],
    ];
    for (i, a) in lists.iter().enumerate() {
        assert_eq!(&read_back(&factors_display(a)), a);
        for b in &lists[i + 1..] {
            assert_ne!(factors_display(a), factors_display(b));
        }
    }
    assert_eq!(factors_display(&[2, 3, 2]), "2 × 3 × 2");
    assert_eq!(factors_display(&[3, 3, 2, 2, 3]), "3^2 × 2^2 × 3");
    for d in category_defs() {
        for c in d.cases {
            let r = prime_factorization(c.label, c.number);
            assert_eq!(read_back(&r.factorization_display), r.factors, "{}", c.label);
        }
    }
}

#[test]
fn stress_numbers_have_the_factors_of_their_labels() {
    let cases = stress_cases();
    assert_eq!(prime_factorization("", cases[0].number).factors, vec![999_999_751, 999_999_883]);
    assert_eq!(prime_factorization("", cases[1].number).factors, vec![99_999_971, 99_999_989]);
    assert!(prime_factorization("", cases[2].number).is_prime);
}

#[test]
fn stress_cases_and_subjects() {
    let cases = stress_cases();
    assert_eq!(cases.len(), 3);
    assert!(cases.iter().all(|c| c.iterations == 500));
    let s = stress_subject(cases[1].label, cases[1].number, cases[1].iterations);
    assert_eq!(s.label, "8×8 digit semiprime");
    assert_eq!(s.number, WARMUP_NUMBER);
    assert_eq!(s.number_display, "9,999,996,000,000,319");
    assert_eq!(s.expected_factors, "99,999,971 × 99,999,989");
    assert_eq!(s.iterations, 500);
}

#[test]
fn readiness_plan_text() {
    let plan = readiness_plan(READINESS_BATCHES, READINESS_ITERATIONS);
    assert_eq!(
        plan.description,
        "8 batches × 200 iterations of hardest semiprime = 1600 total factorizations"
    );
    assert_eq!(plan.number, HARD_NUMBER);
    assert_eq!(plan.number, 999_999_751u64 * 999_999_883);
    assert_eq!(plan.total_factorizations, 1_600);
}

#[test]
fn summary_of_a_whole_run() {
    let categories: Vec<BenchmarkCategory> = category_defs()
        .iter()
        .map(|d| {
            let results = d.cases.iter().map(|c| prime_factorization(c.label, c.number)).collect();
            BenchmarkCategory::new(d.name, d.description, results)
        })
        .collect();
    assert_eq!(categories[0].num_tests, 6);
    assert_eq!(categories[0].category, "Large Semiprimes");
    let stress: Vec<usize> = stress_cases().iter().map(|c| c.iterations).collect();
    let plan = readiness_plan(READINESS_BATCHES, READINESS_ITERATIONS);
    let summary = summarize(&categories, &stress, plan.total_factorizations);
    assert_eq!(summary.total_unique_numbers, 34);
    assert_eq!(summary.total_factorizations, 3_134);
    assert!(summary.all_verified);
}

#[test]
fn summary_sees_a_failure() {
    let results = vec![prime_factorization("one", 1), prime_factorization("zero", 0)];
    let categories = vec![BenchmarkCategory::new("c", "d", results)];
    let summary = summarize(&categories, &vec![], 0);
    assert!(!summary.all_verified);
    assert_eq!(summary.total_factorizations, 2);
    let empty = summarize(&vec![], &vec![3, 4], 5);
    assert!(empty.all_verified);
    assert_eq!(empty.total_unique_numbers, 0);
    assert_eq!(empty.total_factorizations, 12);
}
