//! What is reported of a factorization and of a benchmark run, without the times.

use crate::arith;
use crate::display;
use crate::display::{classify_difficulty, factors_display, format_number};
use crate::factor;
use crate::factor::{sorted_factors, verify_factors};
use crate::product;
use crate::suite;
use vstd::prelude::*;
use vstd::string::*;

verus! {

/// A factorized number with everything that is shown of it.
#[derive(Clone)]
pub struct FactorizationResult {
    pub label: String,
    pub number: u64,
    pub number_display: String,
    pub factors: Vec<u64>,
    pub factorization_display: String,
    pub is_prime: bool,
    pub num_prime_factors: usize,
    pub difficulty: String,
    pub verified: bool,
}

impl FactorizationResult {
    /// The report says of `label`, `n` and `factors` what it should.
    pub open spec fn describes(&self, label: Seq<char>, n: nat, factors: Seq<u64>) -> bool {
        let s = factor::as_nats(factors);
        &&& self.label@ == label
        &&& self.number == n
        &&& self.number_display@ == display::grouped(n)
        &&& self.factors@ == factors
        &&& self.factorization_display@ == display::factors_text(s)
        &&& self.is_prime == (s.len() == 1 && s[0] == n)
        &&& self.num_prime_factors == s.len()
        &&& self.difficulty@ == display::difficulty_text(s)
        &&& self.verified == (factor::prefixes_fit(s) && product::product(s) == n)
    }
}

/// The report of `n` with these factors, which may have been found and timed
/// elsewhere.
pub fn describe(label: &str, n: u64, factors: Vec<u64>) -> (res: FactorizationResult)
    ensures
        res.describes(label@, n as nat, factors@),
        res.label@ == label@,
        res.number == n,
        res.factors@ == factors@,
        res.num_prime_factors == res.factors@.len(),
        res.is_prime <==> res.factors@.len() == 1 && res.factors@[0] == n,
{
    let is_prime = factors.len() == 1 && factors[0] == n;
    let difficulty = classify_difficulty(factors.as_slice());
    let factorization_display = factors_display(factors.as_slice());
    let verified = verify_factors(n, factors.as_slice());
    FactorizationResult {
        label: String::from_str(label),
        number: n,
        number_display: format_number(n),
        factorization_display,
        num_prime_factors: factors.len(),
        is_prime,
        difficulty,
        verified,
        factors,
    }
}

/// Law: the report of a factorization is verified for every number but zero, and
/// it calls prime what is prime.
pub proof fn law_report(n: nat, s: Seq<nat>)
    requires
        n <= u64::MAX,
        s.to_multiset() == factor::factors_of(n).to_multiset(),
    ensures
        (factor::prefixes_fit(s) && product::product(s) == n) == (n != 0),
        (s.len() == 1 && s[0] == n) == arith::prime(n),
{
    broadcast use vstd::seq_lib::group_to_multiset_ensures;

    let f = factor::factors_of(n);
    product::lemma_product_permutation(s, f);
    if n == 0 {
        assert(f.len() == 0);
    } else {
        factor::law_factors_product(n);
        factor::law_product_prefixes_fit(n, s);
    }
    assert(s.to_multiset().len() == s.len() && f.to_multiset().len() == f.len());
    if s.len() == 1 {
        assert(s.to_multiset().count(s[0]) > 0);
        assert(f.contains(s[0]));
        assert(f[0] == s[0]);
        factor::law_factors_prime(n, 0);
    }
    if arith::prime(n) {
        assert(f == seq![n]);
    }
}

/// Law: a report holds the label, the number and the factors that it is of, counts
/// those factors, and calls prime a number that is its own only factor.
pub proof fn law_report_fields(
    r: FactorizationResult,
    label: Seq<char>,
    n: nat,
    factors: Seq<u64>,
)
    requires
        r.describes(label, n, factors),
    ensures
        r.label@ == label,
        r.number == n,
        r.factors@ == factors,
        r.num_prime_factors == r.factors@.len(),
        r.is_prime <==> r.factors@.len() == 1 && r.factors@[0] == r.number,
        r.number_display@ == display::grouped(r.number as nat),
        r.factorization_display@ == display::factors_text(factor::as_nats(r.factors@)),
        r.difficulty@ == display::difficulty_text(factor::as_nats(r.factors@)),
{
    factor::law_as_nats(factors);
}

/// Law: a report is verified exactly if the running product of its factors, from one on,
/// stays within a `u64` and ends at its number. So a verified report is of the product of
/// its factors, and one of factors that multiply up to a positive number is verified.
pub proof fn law_report_verified(
    r: FactorizationResult,
    label: Seq<char>,
    n: nat,
    factors: Seq<u64>,
)
    requires
        r.describes(label, n, factors),
    ensures
        r.verified <==> exists|a: Seq<nat>|
            #[trigger] factor::running_product(a, factor::as_nats(r.factors@))
                && a[r.factors@.len() as int] == r.number,
        r.verified ==> product::product(factor::as_nats(r.factors@)) == r.number,
        r.number >= 1 && product::product(factor::as_nats(r.factors@)) == r.number ==> r.verified,
{
    factor::law_verify_factors(n, factor::as_nats(factors));
    if r.number >= 1 && product::product(factor::as_nats(r.factors@)) == r.number {
        factor::law_product_prefixes_fit(n, factor::as_nats(factors));
    }
}

/// Law: the report of a factorization counts one prime factor exactly for a prime,
/// and some for every number from two on.
pub proof fn law_report_counts(
    r: FactorizationResult,
    label: Seq<char>,
    n: nat,
    factors: Seq<u64>,
)
    requires
        n <= u64::MAX,
        r.describes(label, n, factors),
        factor::as_nats(factors).to_multiset() == factor::factors_of(n).to_multiset(),
    ensures
        r.num_prime_factors == 1 <==> arith::prime(n),
        r.num_prime_factors >= 1 <==> n >= 2,
        r.is_prime <==> arith::prime(n),
{
    broadcast use vstd::seq_lib::group_to_multiset_ensures;

    let s = factor::as_nats(factors);
    let f = factor::factors_of(n);
    law_report(n, s);
    factor::law_factors_none(n);
    assert(s.to_multiset().len() == s.len() && f.to_multiset().len() == f.len());
    if s.len() == 1 {
        factor::law_factors_product(n);
        factor::law_factors_prime(n, 0);
        product::lemma_product_single(f[0]);
        assert(f =~= seq![f[0]]);
    }
}

/// Law: a category whose results report the factorizations of positive numbers is
/// verified throughout.
pub proof fn law_category_verified(category: BenchmarkCategory)
    requires
        forall|i: int|
            0 <= i < category.results@.len() ==> {
                let r = #[trigger] category.results@[i];
                &&& 1 <= r.number
                &&& r.describes(r.label@, r.number as nat, r.factors@)
                &&& factor::as_nats(r.factors@).to_multiset() == factor::factors_of(
                    r.number as nat,
                ).to_multiset()
            },
    ensures
        category_verified(category),
{
    assert forall|i: int| 0 <= i < category.results@.len() implies (
    #[trigger] category.results@[i]).verified by {
        let r = category.results@[i];
        law_report(r.number as nat, factor::as_nats(r.factors@));
    }
}

/// The results of the category report the factorizations of the cases, one by one.
pub open spec fn reports(category: BenchmarkCategory, cases: Seq<suite::TestCase>) -> bool {
    &&& category.results@.len() == cases.len()
    &&& forall|i: int|
        0 <= i < cases.len() ==> {
            let r = #[trigger] category.results@[i];
            &&& r.describes(cases[i].label@, cases[i].number as nat, r.factors@)
            &&& factor::as_nats(r.factors@).to_multiset() == factor::factors_of(
                cases[i].number as nat,
            ).to_multiset()
        }
}

/// Law: a run whose categories report the factorizations of all cases counts 34
/// numbers and, with the repetitions of the stress tests and those of the throughput
/// measurement, 3,134 factorizations; and every result is verified.
pub proof fn law_whole_run(
    counts: SummaryCounts,
    categories: Seq<BenchmarkCategory>,
    defs: Seq<suite::CategoryDef>,
    iterations: Seq<usize>,
    stress: Seq<suite::StressCase>,
    readiness: nat,
)
    requires
        counts.sums_up(categories, iterations, readiness),
        suite::run_categories(defs),
        categories.len() == defs.len(),
        forall|i: int|
            0 <= i < defs.len() ==> reports(#[trigger] categories[i], defs[i].cases@),
        suite::stress_list(stress),
        iterations == stress.map_values(|c: suite::StressCase| c.iterations),
        readiness == suite::READINESS_BATCHES * suite::READINESS_ITERATIONS,
    ensures
        counts.total_unique_numbers == 34,
        counts.total_factorizations == 3_134,
        counts.all_verified,
{
    assert forall|i: int| 0 <= i < categories.len() implies category_verified(
        #[trigger] categories[i],
    ) by {
        let cases = defs[i].cases@;
        assert(reports(categories[i], cases));
        assert(i == 0 || i == 1 || i == 2 || i == 3 || i == 4);
        suite::law_numbers_have_factors(cases);
        assert forall|j: int| 0 <= j < categories[i].results@.len() implies ({
            let r = #[trigger] categories[i].results@[j];
            &&& 1 <= r.number
            &&& r.describes(r.label@, r.number as nat, r.factors@)
            &&& factor::as_nats(r.factors@).to_multiset() == factor::factors_of(
                r.number as nat,
            ).to_multiset()
        }) by {
            assert(2 <= cases[j].number);
        }
        law_category_verified(categories[i]);
    }
    assert(count_results(categories) == 34) by {
        reveal_with_fuel(count_results, 6);
        assert(reports(categories[0], defs[0].cases@));
        assert(reports(categories[1], defs[1].cases@));
        assert(reports(categories[2], defs[2].cases@));
        assert(reports(categories[3], defs[3].cases@));
        assert(reports(categories[4], defs[4].cases@));
    }
    assert(sum(iterations) == 1_500) by {
        reveal_with_fuel(sum, 4);
    }
}

/// The prime factors of `n` in ascending order, with everything that is shown of
/// them.
pub fn prime_factorization(label: &str, n: u64) -> (res: FactorizationResult)
    ensures
        res.describes(label@, n as nat, res.factors@),
        res.label@ == label@,
        res.number == n,
        res.num_prime_factors == res.factors@.len(),
        res.num_prime_factors == factor::factors_of(n as nat).len(),
        n >= 1 ==> product::product(factor::as_nats(res.factors@)) == n,
        forall|i: int, j: int|
            0 <= i <= j < res.factors@.len() ==> res.factors@[i] <= res.factors@[j],
        factor::ascending(factor::as_nats(res.factors@)),
        factor::as_nats(res.factors@).to_multiset() == factor::factors_of(n as nat).to_multiset(),
        forall|i: int|
            0 <= i < res.factors@.len() ==> arith::prime(#[trigger] res.factors@[i] as nat),
        res.verified == (n != 0),
        res.is_prime == arith::prime(n as nat),
{
    let factors = sorted_factors(n);
    proof {
        law_report(n as nat, factor::as_nats(factors@));
    }
    describe(label, n, factors)
}

/// The results of one category.
pub struct BenchmarkCategory {
    pub category: String,
    pub description: String,
    pub num_tests: usize,
    pub results: Vec<FactorizationResult>,
}

impl BenchmarkCategory {
    /// The category has this name, this description and these results.
    pub open spec fn holds(
        &self,
        name: Seq<char>,
        description: Seq<char>,
        results: Seq<FactorizationResult>,
    ) -> bool {
        &&& self.category@ == name
        &&& self.description@ == description
        &&& self.num_tests == results.len()
        &&& self.results@ == results
    }

    /// A category with the results of its cases.
    pub fn new(name: &str, description: &str, results: Vec<FactorizationResult>) -> (res: Self)
        ensures
            res.holds(name@, description@, results@),
            res.category@ == name@,
            res.description@ == description@,
            res.num_tests == results@.len(),
            res.num_tests == res.results@.len(),
            res.results@ == results@,
    {
        BenchmarkCategory {
            category: String::from_str(name),
            description: String::from_str(description),
            num_tests: results.len(),
            results,
        }
    }
}

/// Law: a category counts the results that it holds, and two categories of the same name,
/// description and results are the same.
pub proof fn law_category(
    a: BenchmarkCategory,
    b: BenchmarkCategory,
    name: Seq<char>,
    description: Seq<char>,
    results: Seq<FactorizationResult>,
)
    requires
        a.holds(name, description, results),
        b.holds(name, description, results),
    ensures
        a.num_tests == a.results@.len(),
        a.num_tests == count_results(seq![a]),
        a.category@ == b.category@,
        a.description@ == b.description@,
        a.results@ == b.results@,
        a.category@ == name,
        a.description@ == description,
        a.results@ == results,
{
    law_count_results(seq![a], seq![b]);
}

/// What a stress test repeats.
pub struct StressSubject {
    pub label: String,
    pub number: u64,
    pub number_display: String,
    pub expected_factors: String,
    pub iterations: usize,
}

impl StressSubject {
    /// The subject has this label, this number, with the factors that each repetition
    /// finds, and this many repetitions.
    pub open spec fn describes(&self, label: Seq<char>, n: nat, iterations: nat) -> bool {
        &&& self.label@ == label
        &&& self.number == n
        &&& self.number_display@ == display::grouped(n)
        &&& exists|s: Seq<nat>|
            factor::ascending(s) && #[trigger] s.to_multiset() == factor::factors_of(
                n,
            ).to_multiset() && self.expected_factors@ == display::factors_text(s)
        &&& self.iterations == iterations
    }
}

/// Law: the subject of a stress test shows its number as the report of the number does,
/// and expects the factors that the report finds.
pub proof fn law_stress_subject(
    subject: StressSubject,
    r: FactorizationResult,
    label: Seq<char>,
    n: nat,
    iterations: nat,
)
    requires
        1 <= n <= u64::MAX,
        subject.describes(label, n, iterations),
        r.describes(label, n, r.factors@),
        factor::ascending(factor::as_nats(r.factors@)),
        factor::as_nats(r.factors@).to_multiset() == factor::factors_of(n).to_multiset(),
    ensures
        subject.label@ == label,
        subject.number == n,
        subject.iterations == iterations,
        subject.number_display@ == r.number_display@,
        subject.expected_factors@ == r.factorization_display@,
{
    let s = choose|s: Seq<nat>|
        factor::ascending(s) && #[trigger] s.to_multiset() == factor::factors_of(n).to_multiset()
            && subject.expected_factors@ == display::factors_text(s);
    factor::law_sorted_factors_unique(s, factor::as_nats(r.factors@), n);
}

/// The subject of a stress test, with the factors that each repetition finds.
pub fn stress_subject(label: &str, n: u64, iterations: usize) -> (res: StressSubject)
    ensures
        res.describes(label@, n as nat, iterations as nat),
        res.label@ == label@,
        res.number == n,
        res.number_display@ == display::grouped(n as nat),
        exists|s: Seq<nat>|
            factor::ascending(s) && #[trigger] s.to_multiset() == factor::factors_of(
                n as nat,
            ).to_multiset() && res.expected_factors@ == display::factors_text(s),
        res.iterations == iterations,
{
    let factors = sorted_factors(n);
    StressSubject {
        label: String::from_str(label),
        number: n,
        number_display: format_number(n),
        expected_factors: factors_display(factors.as_slice()),
        iterations,
    }
}

/// How many results the categories hold.
pub open spec fn count_results(categories: Seq<BenchmarkCategory>) -> nat
    decreases categories.len(),
{
    if categories.len() == 0 {
        0
    } else {
        count_results(categories.drop_last()) + categories.last().results@.len()
    }
}

/// Every result of the category is verified.
pub open spec fn category_verified(category: BenchmarkCategory) -> bool {
    forall|i: int|
        0 <= i < category.results@.len() ==> (#[trigger] category.results@[i]).verified
}

/// The sum of the numbers of a sequence.
pub open spec fn sum(s: Seq<usize>) -> nat
    decreases s.len(),
{
    if s.len() == 0 {
        0
    } else {
        sum(s.drop_last()) + s.last() as nat
    }
}

/// Law: the results of two runs of categories add up.
pub proof fn law_count_results(a: Seq<BenchmarkCategory>, b: Seq<BenchmarkCategory>)
    ensures
        a.len() == 0 ==> count_results(a) == 0,
        a.len() == 1 ==> count_results(a) == a[0].results@.len(),
        count_results(a + b) == count_results(a) + count_results(b),
    decreases b.len(),
{
    reveal_with_fuel(count_results, 2);
    if b.len() == 0 {
        assert(a + b =~= a);
    } else {
        law_count_results(a, b.drop_last());
        assert((a + b).drop_last() =~= a + b.drop_last());
    }
}

/// Law: the sums of two sequences add up.
pub proof fn law_sum(a: Seq<usize>, b: Seq<usize>)
    ensures
        a.len() == 0 ==> sum(a) == 0,
        a.len() == 1 ==> sum(a) == a[0],
        sum(a + b) == sum(a) + sum(b),
    decreases b.len(),
{
    reveal_with_fuel(sum, 2);
    if b.len() == 0 {
        assert(a + b =~= a);
    } else {
        law_sum(a, b.drop_last());
        assert((a + b).drop_last() =~= a + b.drop_last());
    }
}

/// Law: a run is verified exactly if no result of any category is not, and it counts
/// every result, every repetition of a stress test and those of the throughput
/// measurement.
pub proof fn law_summary(
    counts: SummaryCounts,
    categories: Seq<BenchmarkCategory>,
    stress_iterations: Seq<usize>,
    readiness_iterations: nat,
)
    requires
        counts.sums_up(categories, stress_iterations, readiness_iterations),
    ensures
        counts.all_verified <==> !exists|i: int, j: int|
            0 <= i < categories.len() && 0 <= j < categories[i].results@.len()
                && !(#[trigger] categories[i].results@[j]).verified,
        counts.total_unique_numbers == count_results(categories),
        counts.total_factorizations - counts.total_unique_numbers == sum(stress_iterations)
            + readiness_iterations,
{
    if counts.all_verified {
        assert forall|i: int, j: int|
            0 <= i < categories.len() && 0 <= j < categories[i].results@.len() implies (
        #[trigger] categories[i].results@[j]).verified by {
            assert(category_verified(categories[i]));
        }
    } else {
        let i = choose|i: int|
            0 <= i < categories.len() && !category_verified(#[trigger] categories[i]);
        let j = choose|j: int|
            0 <= j < categories[i].results@.len() && !(#[trigger] categories[i].results@[j]).verified;
        assert(!categories[i].results@[j].verified);
    }
}

/// The counts of a whole run.
pub struct SummaryCounts {
    pub total_unique_numbers: usize,
    pub total_factorizations: usize,
    pub all_verified: bool,
}

impl SummaryCounts {
    /// The counts of a run with these categories, these repetitions of the stress
    /// tests and this many of the throughput measurement.
    pub open spec fn sums_up(
        &self,
        categories: Seq<BenchmarkCategory>,
        stress_iterations: Seq<usize>,
        readiness_iterations: nat,
    ) -> bool {
        &&& self.total_unique_numbers == count_results(categories)
        &&& self.total_factorizations == count_results(categories) + sum(stress_iterations)
            + readiness_iterations
        &&& self.all_verified == forall|i: int|
            0 <= i < categories.len() ==> category_verified(#[trigger] categories[i])
    }
}

fn all_results_verified(category: &BenchmarkCategory) -> (ok: bool)
    ensures
        ok == category_verified(*category),
{
    let mut i: usize = 0;
    while i < category.results.len()
        invariant
            i <= category.results@.len(),
            forall|j: int| 0 <= j < i ==> (#[trigger] category.results@[j]).verified,
        decreases category.results@.len() - i,
    {
        if !category.results[i].verified {
            return false;
        }
        i = i + 1;
    }
    true
}

proof fn lemma_count_prefix(categories: Seq<BenchmarkCategory>, k: int)
    requires
        0 <= k <= categories.len(),
    ensures
        count_results(categories.take(k)) <= count_results(categories),
    decreases categories.len() - k,
{
    if k < categories.len() {
        lemma_count_prefix(categories, k + 1);
        assert(categories.take(k + 1).drop_last() =~= categories.take(k));
    } else {
        assert(categories.take(k) =~= categories);
    }
}

proof fn lemma_sum_prefix(s: Seq<usize>, k: int)
    requires
        0 <= k <= s.len(),
    ensures
        sum(s.take(k)) <= sum(s),
    decreases s.len() - k,
{
    if k < s.len() {
        lemma_sum_prefix(s, k + 1);
        assert(s.take(k + 1).drop_last() =~= s.take(k));
    } else {
        assert(s.take(k) =~= s);
    }
}

/// Counts the results of the categories, the repetitions of the stress tests and
/// those of the throughput measurement, and tells whether every result of the
/// categories is verified.
pub fn summarize(
    categories: &Vec<BenchmarkCategory>,
    stress_iterations: &Vec<usize>,
    readiness_iterations: usize,
) -> (res: SummaryCounts)
    requires
        count_results(categories@) + sum(stress_iterations@) + readiness_iterations <= usize::MAX,
    ensures
        res.sums_up(categories@, stress_iterations@, readiness_iterations as nat),
{
    let mut unique: usize = 0;
    let mut all_verified = true;
    let mut i: usize = 0;
    assert(categories@.take(0).len() == 0);
    while i < categories.len()
        invariant
            i <= categories@.len(),
            unique == count_results(categories@.take(i as int)),
            count_results(categories@) <= usize::MAX,
            all_verified == forall|j: int|
                0 <= j < i ==> category_verified(#[trigger] categories@[j]),
        decreases categories@.len() - i,
    {
        proof {
            lemma_count_prefix(categories@, i + 1);
            assert(categories@.take(i + 1).drop_last() =~= categories@.take(i as int));
        }
        unique = unique + categories[i].results.len();
        all_verified = all_verified && all_results_verified(&categories[i]);
        i = i + 1;
    }
    assert(categories@.take(i as int) =~= categories@);

    let mut stress: usize = 0;
    let mut j: usize = 0;
    assert(stress_iterations@.take(0).len() == 0);
    while j < stress_iterations.len()
        invariant
            j <= stress_iterations@.len(),
            stress == sum(stress_iterations@.take(j as int)),
            sum(stress_iterations@) <= usize::MAX,
        decreases stress_iterations@.len() - j,
    {
        proof {
            lemma_sum_prefix(stress_iterations@, j + 1);
            assert(stress_iterations@.take(j + 1).drop_last() =~= stress_iterations@.take(
                j as int,
            ));
        }
        stress = stress + stress_iterations[j];
        j = j + 1;
    }
    assert(stress_iterations@.take(j as int) =~= stress_iterations@);
    SummaryCounts {
        total_unique_numbers: unique,
        total_factorizations: unique + stress + readiness_iterations,
        all_verified,
    }
}

} // verus!
