//! Factorization of a `u64` into primes.

use crate::arith;
use crate::miller_rabin;
use crate::primality::is_prime;
use crate::product;
use crate::rho;
use crate::rho::pollard_brent;
use vstd::arithmetic::div_mod::*;
use vstd::arithmetic::mul::*;
use vstd::prelude::*;

verus! {

/// The divisors that are tried before the iteration.
pub const TRIAL_PRIMES: [u64; 9] = [2, 3, 5, 7, 11, 13, 17, 19, 23];

/// The values of a sequence of machine integers.
pub open spec fn as_nats(s: Seq<u64>) -> Seq<nat> {
    s.map_values(|x: u64| x as nat)
}

/// `TRIAL_PRIMES[k]` is the first trial prime that divides `n`.
pub open spec fn first_trial_prime(n: nat, k: int) -> bool {
    &&& 0 <= k < 9
    &&& arith::divides(TRIAL_PRIMES@[k] as nat, n)
    &&& forall|j: int| 0 <= j < k ==> !arith::divides(#[trigger] TRIAL_PRIMES@[j] as nat, n)
}

/// `c` is the first constant from one on with which the iteration finds a
/// proper divisor of `n`. Only residues modulo `n` matter, so none above `n`
/// can be the first.
pub open spec fn first_constant(n: nat, c: nat) -> bool {
    &&& 1 <= c <= n
    &&& rho::rho_divisor(n, c) != n
    &&& forall|b: nat| 1 <= b < c ==> #[trigger] rho::rho_divisor(n, b) == n
}

/// `d` is the least divisor of `n` from two on.
pub open spec fn least_divisor(n: nat, d: nat) -> bool {
    &&& 2 <= d
    &&& arith::divides(d, n)
    &&& forall|e: nat| 2 <= e < d ==> !#[trigger] arith::divides(e, n)
}

/// The divisor at which a composite number without small factors is split: the
/// one that the iteration finds with the first constant that yields a proper
/// one, or the least one where no constant does.
pub open spec fn split_divisor(n: nat) -> nat {
    if exists|c: nat| first_constant(n, c) {
        rho::rho_divisor(n, choose|c: nat| first_constant(n, c))
    } else {
        choose|d: nat| least_divisor(n, d)
    }
}

/// The factors of `n` in the order in which they are found.
pub open spec fn factors_of(n: nat) -> Seq<nat>
    decreases n,
{
    if n <= 1 {
        seq![]
    } else if arith::prime(n) {
        seq![n]
    } else if exists|k: int| first_trial_prime(n, k) {
        let p = TRIAL_PRIMES@[choose|k: int| first_trial_prime(n, k)] as nat;
        proof {
            lemma_trial_division(n, p);
        }
        seq![p] + factors_of(n / p)
    } else {
        let d = split_divisor(n);
        proof {
            lemma_split(n);
        }
        factors_of(d) + factors_of(n / d)
    }
}

/// The first trial prime that divides a number leaves a smaller cofactor.
pub proof fn lemma_trial_division(n: nat, p: nat)
    requires
        n >= 1,
        p == TRIAL_PRIMES@[choose|k: int| first_trial_prime(n, k)],
        exists|k: int| first_trial_prime(n, k),
    ensures
        2 <= p <= 23,
        arith::divides(p, n),
        n / p < n,
{
    let k = choose|k: int| first_trial_prime(n, k);
    assert(first_trial_prime(n, k));
    lemma_div_decreases(n as int, p as int);
}

/// The least divisor from two on exists.
proof fn lemma_least_divisor_exists(n: nat, d: nat)
    requires
        d >= 2,
        arith::divides(d, n),
    ensures
        exists|e: nat| least_divisor(n, e) && e <= d,
    decreases d,
{
    if exists|e: nat| 2 <= e < d && #[trigger] arith::divides(e, n) {
        let e = choose|e: nat| 2 <= e < d && #[trigger] arith::divides(e, n);
        lemma_least_divisor_exists(n, e);
    } else {
        assert(least_divisor(n, d));
    }
}

/// A composite number is split properly.
pub proof fn lemma_split(n: nat)
    requires
        n >= 2,
        !arith::prime(n),
    ensures
        1 < split_divisor(n) < n,
        arith::divides(split_divisor(n), n),
        0 < n / split_divisor(n) < n,
{
    let d = split_divisor(n);
    if exists|c: nat| first_constant(n, c) {
        let c = choose|c: nat| first_constant(n, c);
        assert(first_constant(n, c));
        rho::law_rho_divides(n, c);
    } else {
        let p = arith::lemma_small_prime_divisor(n);
        lemma_least_divisor_exists(n, p);
        assert(p < n) by (nonlinear_arith)
            requires
                p * p <= n,
                p >= 2,
        ;
        let e = choose|e: nat| least_divisor(n, e) && e <= p;
        assert(least_divisor(n, e));
        assert(least_divisor(n, d));
        if e < d {
            assert(!arith::divides(e, n));
        }
    }
    let q = arith::lemma_divides_quotient(d, n);
    lemma_div_decreases(n as int, d as int);
    assert(q > 0) by (nonlinear_arith)
        requires
            n == d * q,
            n > 0,
            q >= 0,
    ;
}

/// Law: where no constant up to `n` yields a proper divisor, none does, so the
/// search may stop there.
pub proof fn law_no_constant_beyond(n: nat, c: nat)
    requires
        n >= 2,
        c >= 1,
        forall|b: nat| !first_constant(n, b),
    ensures
        rho::rho_divisor(n, c) == n,
{
    if rho::rho_divisor(n, c) != n {
        let r = c % n;
        rho::law_rho_constant_modulo(n, c);
        rho::law_rho_constant_modulo(n, n);
        lemma_mod_self_0(n as int);
        let b = if r == 0 {
            n
        } else {
            r
        };
        assert(rho::rho_divisor(n, b) != n);
        lemma_first_constant_exists(n, b);
    }
}

/// If any constant up to `n` yields a proper divisor, there is a first one.
proof fn lemma_first_constant_exists(n: nat, c: nat)
    requires
        1 <= c <= n,
        rho::rho_divisor(n, c) != n,
    ensures
        exists|b: nat| first_constant(n, b),
    decreases c,
{
    if !first_constant(n, c) {
        let b = choose|b: nat| 1 <= b < c && #[trigger] rho::rho_divisor(n, b) != n;
        lemma_first_constant_exists(n, b);
    }
}

/// Law: the factors of a positive number multiply up to it.
pub proof fn law_factors_product(n: nat)
    requires
        n >= 1,
    ensures
        product::product(factors_of(n)) == n,
    decreases n,
{
    let f = factors_of(n);
    if n == 1 {
        assert(f.len() == 0);
    } else if arith::prime(n) {
        product::lemma_product_single(n);
    } else if exists|k: int| first_trial_prime(n, k) {
        let p = TRIAL_PRIMES@[choose|k: int| first_trial_prime(n, k)] as nat;
        lemma_trial_division(n, p);
        let q = arith::lemma_divides_quotient(p, n);
        assert(q > 0) by (nonlinear_arith)
            requires
                n == p * q,
                n > 0,
                q >= 0,
        ;
        law_factors_product(n / p);
        product::lemma_product_concat(seq![p], factors_of(n / p));
        product::lemma_product_single(p);
    } else {
        let d = split_divisor(n);
        lemma_split(n);
        let q = arith::lemma_divides_quotient(d, n);
        law_factors_product(d);
        law_factors_product(n / d);
        product::lemma_product_concat(factors_of(d), factors_of(n / d));
    }
}

/// Law: each of the factors is prime.
pub proof fn law_factors_prime(n: nat, i: int)
    requires
        0 <= i < factors_of(n).len(),
    ensures
        arith::prime(factors_of(n)[i]),
        factors_of(n)[i] <= n,
    decreases n,
{
    if n > 1 && !arith::prime(n) {
        if exists|k: int| first_trial_prime(n, k) {
            let p = TRIAL_PRIMES@[choose|k: int| first_trial_prime(n, k)] as nat;
            lemma_trial_division(n, p);
            if i == 0 {
                let k = choose|k: int| first_trial_prime(n, k);
                assert(miller_rabin::MR_WITNESSES@[k] == p);
                miller_rabin::lemma_small_primes(p);
                arith::lemma_divides_le(p, n);
            } else {
                law_factors_prime(n / p, i - 1);
            }
        } else {
            let d = split_divisor(n);
            lemma_split(n);
            if i < factors_of(d).len() {
                law_factors_prime(d, i);
            } else {
                law_factors_prime(n / d, i - factors_of(d).len());
            }
        }
    }
}

/// The least divisor of `n` from two on, by trial division.
pub fn find_least_divisor(n: u64) -> (d: u64)
    requires
        n >= 2,
    ensures
        least_divisor(n as nat, d as nat),
        d <= n,
{
    let ghost nn = n as nat;
    let mut d: u64 = 2;
    proof {
        arith::lemma_divides_refl(nn);
    }
    while d <= n / d
        invariant
            2 <= d,
            n >= 2,
            nn == n,
            forall|e: nat| 2 <= e < d ==> !#[trigger] arith::divides(e, nn),
        decreases n - d,
    {
        assert(d < n) by (nonlinear_arith)
            requires
                d <= n / d,
                d >= 2,
        ;
        if n % d == 0 {
            return d;
        }
        d = d + 1;
    }
    proof {
        // A divisor from `d` on comes with a cofactor below `d`.
        assert forall|e: nat| 2 <= e < nn implies !#[trigger] arith::divides(e, nn) by {
            if arith::divides(e, nn) {
                let f = arith::lemma_divides_quotient(e, nn);
                arith::lemma_divides_multiple(f, e);
                lemma_mul_is_commutative(e as int, f as int);
                assert(f >= 2) by (nonlinear_arith)
                    requires
                        nn == e * f,
                        2 <= e < nn,
                        f >= 0,
                ;
                lemma_fundamental_div_mod(nn as int, d as int);
                assert(f < d) by (nonlinear_arith)
                    requires
                        nn == e * f,
                        e >= d,
                        nn < d * (nn / d as nat) + d,
                        nn / (d as nat) < d,
                        d >= 2,
                ;
            }
        }
        assert(arith::divides(nn, nn));
    }
    n
}

proof fn lemma_first_constant_unique(n: nat, c: nat)
    requires
        first_constant(n, c),
    ensures
        split_divisor(n) == rho::rho_divisor(n, c),
{
    let b = choose|b: nat| first_constant(n, b);
    assert(first_constant(n, b));
    if b < c {
        assert(rho::rho_divisor(n, b) == n);
    }
    if c < b {
        assert(rho::rho_divisor(n, c) == n);
    }
}

/// A proper divisor of a composite number.
fn find_split_divisor(n: u64) -> (d: u64)
    requires
        n >= 2,
        !arith::prime(n as nat),
    ensures
        d == split_divisor(n as nat),
{
    let ghost nn = n as nat;
    let mut c: u64 = 1;
    loop
        invariant
            n >= 2,
            nn == n,
            !arith::prime(nn),
            1 <= c <= n,
            forall|b: nat| 1 <= b < c ==> #[trigger] rho::rho_divisor(nn, b) == nn,
        decreases n - c,
    {
        let d = pollard_brent(n, c);
        if d != n {
            proof {
                assert(first_constant(nn, c as nat));
                lemma_first_constant_unique(nn, c as nat);
            }
            return d;
        }
        if c == n {
            // Every residue has been tried as the constant.
            let e = find_least_divisor(n);
            proof {
                assert forall|b: nat| !first_constant(nn, b) by {
                    assert(b <= c ==> rho::rho_divisor(nn, b) == nn || b < 1);
                }
                let x = choose|x: nat| least_divisor(nn, x);
                assert(least_divisor(nn, e as nat));
                assert(least_divisor(nn, x));
                if e < x {
                    assert(!arith::divides(e as nat, nn));
                }
                if x < e {
                    assert(!arith::divides(x, nn));
                }
            }
            return e;
        }
        c = c + 1;
    }
}

/// Appends the prime factors of `n` to `factors`, each as often as it divides
/// `n`; none for zero and one.
pub fn factorize(n: u64, factors: &mut Vec<u64>)
    ensures
        as_nats(final(factors)@) == as_nats(old(factors)@) + factors_of(n as nat),
        n >= 1 ==> product::product(as_nats(final(factors)@)) == product::product(
            as_nats(old(factors)@),
        ) * n,
        forall|i: int|
            old(factors)@.len() <= i < final(factors)@.len() ==> arith::prime(
                #[trigger] final(factors)@[i] as nat,
            ),
{
    append_factors(n, factors);
    proof {
        let nn = n as nat;
        let before = as_nats(old(factors)@);
        let f = factors_of(nn);
        if n >= 1 {
            law_factors_product(nn);
            product::lemma_product_concat(before, f);
        }
        assert(as_nats(factors@).len() == factors@.len() && before.len() == old(factors)@.len());
        assert forall|i: int| old(factors)@.len() <= i < factors@.len() implies
            arith::prime(#[trigger] factors@[i] as nat) by {
            let k = i - before.len();
            law_factors_prime(nn, k);
            assert(as_nats(factors@)[i] == f[k]);
        }
    }
}

/// Appends the factors of `n` in the order in which they are found.
pub(crate) fn append_factors(n: u64, factors: &mut Vec<u64>)
    ensures
        as_nats(final(factors)@) == as_nats(old(factors)@) + factors_of(n as nat),
    decreases n, 1nat,
{
    let ghost nn = n as nat;
    let ghost before = as_nats(factors@);
    if n <= 1 {
        assert(before + seq![] =~= before);
        return;
    }
    if is_prime(n) {
        factors.push(n);
        assert(as_nats(factors@) =~= before + seq![nn]);
        return;
    }
    let mut k: usize = 0;
    while k < 9
        invariant
            k <= 9,
            n >= 2,
            nn == n,
            before == as_nats(factors@),
            before == as_nats(old(factors)@),
            !arith::prime(nn),
            forall|j: int|
                0 <= j < k ==> !arith::divides(#[trigger] TRIAL_PRIMES@[j] as nat, nn),
        decreases 9 - k,
    {
        let p = TRIAL_PRIMES[k];
        assert(p == TRIAL_PRIMES@[k as int]);
        assert(p >= 2);
        if n % p == 0 {
            proof {
                let j = choose|j: int| first_trial_prime(nn, j);
                assert(first_trial_prime(nn, k as int));
                assert(first_trial_prime(nn, j));
                if j < k {
                    assert(!arith::divides(TRIAL_PRIMES@[j] as nat, nn));
                }
                if k < j {
                    assert(!arith::divides(TRIAL_PRIMES@[k as int] as nat, nn));
                }
                lemma_trial_division(nn, p as nat);
            }
            factors.push(p);
            assert(as_nats(factors@) =~= before + seq![p as nat]);
            append_factors(n / p, factors);
            assert(as_nats(factors@) =~= before + (seq![p as nat] + factors_of(nn / p as nat)));
            return;
        }
        k = k + 1;
    }
    proof {
        assert forall|j: int| !first_trial_prime(nn, j) by {
            if 0 <= j < 9 {
                assert(!arith::divides(TRIAL_PRIMES@[j] as nat, nn));
            }
        }
        lemma_split(nn);
    }
    let d = find_split_divisor(n);
    append_factors(d, factors);
    append_factors(n / d, factors);
    assert(as_nats(factors@) =~= before + (factors_of(d as nat) + factors_of(nn / d as nat)));
}

/// The product of every prefix fits a `u64`.
pub open spec fn prefixes_fit(s: Seq<nat>) -> bool {
    forall|k: int| 0 <= k <= s.len() ==> product::product(#[trigger] s.take(k)) <= u64::MAX
}

/// Whether the factors multiply up to `n`, without an overflow on the way.
pub fn verify_factors(n: u64, factors: &[u64]) -> (ok: bool)
    ensures
        ok == (prefixes_fit(as_nats(factors@)) && product::product(as_nats(factors@)) == n),
{
    let ghost s = as_nats(factors@);
    let mut acc: u64 = 1;
    let mut i: usize = 0;
    assert(s.take(0).len() == 0);
    while i < factors.len()
        invariant
            i <= factors@.len(),
            s == as_nats(factors@),
            acc == product::product(s.take(i as int)),
            forall|k: int| 0 <= k <= i ==> product::product(#[trigger] s.take(k)) <= u64::MAX,
        decreases factors@.len() - i,
    {
        assert(s.take(i + 1) =~= s.take(i as int).push(s[i as int]));
        proof {
            product::lemma_product_push(s.take(i as int), s[i as int]);
        }
        match acc.checked_mul(factors[i]) {
            Some(v) => {
                acc = v;
            },
            None => {
                assert(product::product(s.take(i + 1)) > u64::MAX);
                return false;
            },
        }
        i = i + 1;
    }
    assert(s.take(i as int) =~= s);
    acc == n
}

/// Law: factors that multiply up to a positive `u64` do so without an overflow on the way.
pub proof fn law_product_prefixes_fit(n: nat, s: Seq<nat>)
    requires
        0 < n <= u64::MAX,
        product::product(s) == n,
    ensures
        prefixes_fit(s),
{
    assert forall|k: int| 0 <= k <= s.len() implies product::product(#[trigger] s.take(k))
        <= u64::MAX by {
        assert(s =~= s.take(k) + s.skip(k));
        product::lemma_product_concat(s.take(k), s.skip(k));
        arith::lemma_divides_multiple(product::product(s.take(k)), product::product(s.skip(k)));
        arith::lemma_divides_le(product::product(s.take(k)), n);
    }
}

/// In ascending order.
pub open spec fn ascending(s: Seq<nat>) -> bool {
    forall|i: int, j: int| 0 <= i <= j < s.len() ==> s[i] <= s[j]
}

/// Sorts in place, in ascending order.
fn sort(v: &mut Vec<u64>)
    ensures
        ascending(as_nats(final(v)@)),
        as_nats(final(v)@).to_multiset() == as_nats(old(v)@).to_multiset(),
        forall|a: int, b: int| 0 <= a <= b < final(v)@.len() ==> final(v)@[a] <= final(v)@[b],
        final(v)@.len() == old(v)@.len(),
{
    let ghost all = as_nats(v@).to_multiset();
    let ghost len = v@.len();
    let mut i: usize = 0;
    while i < v.len()
        invariant
            i <= v@.len(),
            v@.len() == len,
            as_nats(v@).to_multiset() == all,
            forall|a: int, b: int| 0 <= a <= b < i ==> v@[a] <= v@[b],
        decreases v@.len() - i,
    {
        let mut j: usize = i;
        while j > 0 && v[j - 1] > v[j]
            invariant
                j <= i < v@.len(),
                v@.len() == len,
                as_nats(v@).to_multiset() == all,
                forall|a: int, b: int|
                    0 <= a <= b <= i && a != j && b != j ==> v@[a] <= v@[b],
                forall|b: int| j < b <= i ==> v@[j as int] <= #[trigger] v@[b],
            decreases j,
        {
            let ghost s = as_nats(v@);
            let x = v[j - 1];
            let y = v[j];
            v.set(j - 1, y);
            v.set(j, x);
            proof {
                broadcast use vstd::seq_lib::group_to_multiset_ensures;

                assert(as_nats(v@) =~= s.update(j - 1, y as nat).update(j as int, x as nat));
                assert(as_nats(v@).to_multiset() =~= s.to_multiset());
            }
            j = j - 1;
        }
        i = i + 1;
    }
}

/// The prime factors of `n` in ascending order.
pub fn sorted_factors(n: u64) -> (factors: Vec<u64>)
    ensures
        ascending(as_nats(factors@)),
        forall|i: int, j: int| 0 <= i <= j < factors@.len() ==> factors@[i] <= factors@[j],
        factors@.len() == factors_of(n as nat).len(),
        as_nats(factors@).to_multiset() == factors_of(n as nat).to_multiset(),
        n >= 1 ==> product::product(as_nats(factors@)) == n,
        forall|i: int|
            0 <= i < factors@.len() ==> arith::prime(#[trigger] factors@[i] as nat),
{
    let mut factors: Vec<u64> = Vec::new();
    factorize(n, &mut factors);
    assert(as_nats(Seq::<u64>::empty()) + factors_of(n as nat) =~= factors_of(n as nat));
    sort(&mut factors);
    proof {
        let s = as_nats(factors@);
        let f = factors_of(n as nat);
        product::lemma_product_permutation(s, f);
        if n >= 1 {
            law_factors_product(n as nat);
        }
        assert forall|i: int| 0 <= i < factors@.len() implies arith::prime(
            #[trigger] factors@[i] as nat,
        ) by {
            broadcast use vstd::seq_lib::group_to_multiset_ensures;

            assert(s[i] == factors@[i] as nat);
            assert(s.to_multiset().count(s[i]) > 0);
            assert(f.contains(s[i]));
            let k = choose|k: int| 0 <= k < f.len() && f[k] == s[i];
            law_factors_prime(n as nat, k);
        }
    }
    factors
}

/// A prime that divides a product of primes is one of them.
pub proof fn lemma_prime_in_product(p: nat, s: Seq<nat>) -> (i: int)
    requires
        arith::prime(p),
        forall|i: int| 0 <= i < s.len() ==> arith::prime(#[trigger] s[i]),
        arith::divides(p, product::product(s)),
    ensures
        0 <= i < s.len(),
        s[i] == p,
    decreases s.len(),
{
    if s.len() == 0 {
        arith::lemma_divides_le(p, 1);
        0
    } else {
        arith::lemma_prime_divides_product(p, product::product(s.drop_last()), s.last());
        if arith::divides(p, s.last()) {
            assert(arith::prime(s[s.len() - 1]));
            s.len() - 1
        } else {
            lemma_prime_in_product(p, s.drop_last())
        }
    }
}

/// Law: a number is a product of primes in one way only, but for the order.
pub proof fn law_prime_factors_unique(s: Seq<nat>, t: Seq<nat>)
    requires
        forall|i: int| 0 <= i < s.len() ==> arith::prime(#[trigger] s[i]),
        forall|i: int| 0 <= i < t.len() ==> arith::prime(#[trigger] t[i]),
        product::product(s) == product::product(t),
    ensures
        s.to_multiset() == t.to_multiset(),
    decreases s.len(),
{
    broadcast use vstd::seq_lib::group_to_multiset_ensures;

    if s.len() == 0 {
        if t.len() > 0 {
            product::lemma_factor_divides_product(t, 0);
            arith::lemma_divides_le(t[0], 1);
            assert(arith::prime(t[0]));
        }
        assert(s =~= t);
    } else {
        let p = s.last();
        assert(arith::prime(s[s.len() - 1]));
        product::lemma_factor_divides_product(s, s.len() - 1);
        let i = lemma_prime_in_product(p, t);
        let rest = t.remove(i);
        let moved = rest.push(p);
        assert(moved.to_multiset() =~= t.to_multiset());
        product::lemma_product_permutation(moved, t);
        product::lemma_product_push(rest, p);
        let a = product::product(s.drop_last());
        let b = product::product(rest);
        assert(a == b) by (nonlinear_arith)
            requires
                a * p == b * p,
                p >= 2,
        ;
        assert forall|j: int| 0 <= j < rest.len() implies arith::prime(#[trigger] rest[j]) by {
            assert(arith::prime(t[j]) && (j + 1 < t.len() ==> arith::prime(t[j + 1])));
        }
        law_prime_factors_unique(s.drop_last(), rest);
        assert(s =~= s.drop_last().push(p));
        assert(s.to_multiset() =~= s.drop_last().to_multiset().insert(p));
        assert(moved.to_multiset() =~= rest.to_multiset().insert(p));
    }
}

/// Law: a prime is its own only factor.
pub proof fn law_factors_of_prime(n: nat)
    requires
        arith::prime(n),
    ensures
        factors_of(n) == seq![n],
{
}

/// Law: any primes with the product `n` are the factors of `n`, but for the order.
pub proof fn law_factors_complete(n: nat, s: Seq<nat>)
    requires
        forall|i: int| 0 <= i < s.len() ==> arith::prime(#[trigger] s[i]),
        product::product(s) == n,
        n >= 1,
    ensures
        s.to_multiset() == factors_of(n).to_multiset(),
{
    let f = factors_of(n);
    assert forall|i: int| 0 <= i < f.len() implies arith::prime(#[trigger] f[i]) by {
        law_factors_prime(n, i);
    }
    law_factors_product(n);
    law_prime_factors_unique(s, f);
}

/// Law: there is one ascending sequence of primes with the product `n`.
pub proof fn law_ascending_primes_unique(s: Seq<nat>, t: Seq<nat>)
    requires
        ascending(s),
        ascending(t),
        forall|i: int| 0 <= i < s.len() ==> arith::prime(#[trigger] s[i]),
        forall|i: int| 0 <= i < t.len() ==> arith::prime(#[trigger] t[i]),
        product::product(s) == product::product(t),
    ensures
        s == t,
{
    law_prime_factors_unique(s, t);
    let leq = |x: nat, y: nat| x <= y;
    assert(vstd::relations::sorted_by(s, leq));
    assert(vstd::relations::sorted_by(t, leq));
    vstd::seq_lib::lemma_sorted_unique(s, t, leq);
}

/// Law: taking the values of machine integers keeps each of them, in its place.
pub proof fn law_as_nats(s: Seq<u64>)
    ensures
        as_nats(s).len() == s.len(),
        forall|i: int| 0 <= i < s.len() ==> #[trigger] as_nats(s)[i] == s[i] as nat,
{
}

/// Law: a sequence is in ascending order exactly if no number comes before a smaller
/// one.
pub proof fn law_ascending(s: Seq<nat>)
    ensures
        ascending(s) <==> !exists|i: int, j: int|
            0 <= i < j < s.len() && #[trigger] s[j] < #[trigger] s[i],
{
    if !exists|i: int, j: int| 0 <= i < j < s.len() && #[trigger] s[j] < #[trigger] s[i] {
        assert forall|i: int, j: int| 0 <= i <= j < s.len() implies s[i] <= s[j] by {}
    }
}

/// Law: the first of ascending factors of `n` is the least prime factor of `n`, the
/// last one the greatest.
pub proof fn law_ascending_factors_ends(n: nat, s: Seq<nat>, p: nat)
    requires
        n >= 2,
        ascending(s),
        s.to_multiset() == factors_of(n).to_multiset(),
        arith::prime(p),
        arith::divides(p, n),
    ensures
        s.len() > 0,
        s[0] <= p <= s[s.len() - 1],
        arith::prime(s[0]),
        arith::divides(s[0], n),
{
    broadcast use vstd::seq_lib::group_to_multiset_ensures;

    let f = factors_of(n);
    law_factors_product(n);
    product::lemma_product_permutation(s, f);
    assert forall|i: int| 0 <= i < s.len() implies arith::prime(#[trigger] s[i]) by {
        assert(s.to_multiset().count(s[i]) > 0);
        assert(f.contains(s[i]));
        let k = choose|k: int| 0 <= k < f.len() && f[k] == s[i];
        law_factors_prime(n, k);
    }
    let i = lemma_prime_in_product(p, s);
    product::lemma_factor_divides_product(s, 0);
}

/// Law: factors are verified for `n` exactly if their running product, from one on, stays
/// within a `u64` and ends at `n`.
pub proof fn law_verify_factors(n: nat, s: Seq<nat>)
    ensures
        (prefixes_fit(s) && product::product(s) == n) <==> exists|a: Seq<nat>|
            #[trigger] running_product(a, s) && a[s.len() as int] == n,
{
    let a = Seq::new((s.len() + 1) as nat, |i: int| product::product(s.take(i)));
    assert(s.take(s.len() as int) =~= s);
    assert(s.take(0).len() == 0);
    if prefixes_fit(s) && product::product(s) == n {
        assert forall|i: int| 0 <= i < s.len() implies #[trigger] a[i + 1] == a[i] * s[i] by {
            assert(s.take(i + 1) =~= s.take(i).push(s[i]));
            product::lemma_product_push(s.take(i), s[i]);
        }
        assert forall|i: int| 0 <= i <= s.len() implies #[trigger] a[i] <= u64::MAX by {
            assert(product::product(s.take(i)) <= u64::MAX);
        }
        assert(running_product(a, s));
    }
    if exists|b: Seq<nat>| #[trigger] running_product(b, s) && b[s.len() as int] == n {
        let b = choose|b: Seq<nat>| #[trigger] running_product(b, s) && b[s.len() as int] == n;
        assert forall|k: int| 0 <= k <= s.len() implies product::product(#[trigger] s.take(k))
            <= u64::MAX by {
            lemma_running_product(b, s, k);
            assert(b[k] <= u64::MAX);
        }
        lemma_running_product(b, s, s.len() as int);
    }
}

/// `a` holds the products of the first numbers of `s`, each of which fits a `u64`.
pub open spec fn running_product(a: Seq<nat>, s: Seq<nat>) -> bool {
    &&& a.len() == s.len() + 1
    &&& a[0] == 1
    &&& forall|i: int| 0 <= i < s.len() ==> #[trigger] a[i + 1] == a[i] * s[i]
    &&& forall|i: int| 0 <= i <= s.len() ==> #[trigger] a[i] <= u64::MAX
}

proof fn lemma_running_product(a: Seq<nat>, s: Seq<nat>, k: int)
    requires
        running_product(a, s),
        0 <= k <= s.len(),
    ensures
        product::product(s.take(k)) == a[k],
    decreases k,
{
    if k > 0 {
        lemma_running_product(a, s, k - 1);
        assert(s.take(k) =~= s.take(k - 1).push(s[k - 1]));
        product::lemma_product_push(s.take(k - 1), s[k - 1]);
        assert(a[(k - 1) + 1] == a[k - 1] * s[k - 1]);
    } else {
        assert(s.take(0).len() == 0);
    }
}

/// Law: a composite number with a prime factor below 29 is found to have its least
/// prime factor first, and then the factors of what is left.
pub proof fn law_small_factor_first(n: nat, p: nat)
    requires
        n >= 2,
        !arith::prime(n),
        p < 29,
        arith::prime(p),
        arith::divides(p, n),
        forall|q: nat| q < p && #[trigger] arith::prime(q) ==> !arith::divides(q, n),
    ensures
        factors_of(n) == seq![p] + factors_of(n / p),
{
    let w = TRIAL_PRIMES@;
    assert(w[0] == 2 && w[1] == 3 && w[2] == 5 && w[3] == 7 && w[4] == 11 && w[5] == 13 && w[6]
        == 17 && w[7] == 19 && w[8] == 23);
    lemma_trial_primes();
    assert(arith::divides(2, p) ==> p == 2);
    assert(arith::divides(3, p) ==> p == 3);
    assert(arith::divides(5, p) ==> p == 5);
    let k: int = if p == 2 {
        0
    } else if p == 3 {
        1
    } else if p == 5 {
        2
    } else if p == 7 {
        3
    } else if p == 11 {
        4
    } else if p == 13 {
        5
    } else if p == 17 {
        6
    } else if p == 19 {
        7
    } else {
        8
    };
    assert(w[k] == p);
    assert(first_trial_prime(n, k)) by {
        assert forall|j: int| 0 <= j < k implies !arith::divides(#[trigger] w[j] as nat, n) by {
            assert(arith::prime(w[j] as nat));
        }
    }
    let i = choose|i: int| first_trial_prime(n, i);
    assert(first_trial_prime(n, i));
    if i < k {
        assert(!arith::divides(w[i] as nat, n));
    }
    if k < i {
        assert(!arith::divides(w[k] as nat, n));
    }
}

proof fn lemma_trial_primes()
    ensures
        forall|k: int| 0 <= k < 9 ==> arith::prime(#[trigger] TRIAL_PRIMES@[k] as nat),
{
    let w = TRIAL_PRIMES@;
    assert(w[0] == 2 && w[1] == 3 && w[2] == 5 && w[3] == 7 && w[4] == 11 && w[5] == 13 && w[6]
        == 17 && w[7] == 19 && w[8] == 23);
    let v = miller_rabin::MR_WITNESSES@;
    assert(v[0] == 2 && v[1] == 3 && v[2] == 5 && v[3] == 7 && v[4] == 11 && v[5] == 13 && v[6]
        == 17 && v[7] == 19 && v[8] == 23);
    assert forall|k: int| 0 <= k < 9 implies arith::prime(#[trigger] w[k] as nat) by {
        assert(w[k] == v[k]);
        miller_rabin::lemma_small_primes(w[k] as nat);
    }
}

/// Law: a composite number without a prime factor below 29 is split at the divisor
/// that the first constant yields with which the iteration finds a proper one, and
/// the factors of that divisor come first.
pub proof fn law_split_order(n: nat, c: nat)
    requires
        n >= 2,
        !arith::prime(n),
        forall|q: nat| q < 29 && #[trigger] arith::prime(q) ==> !arith::divides(q, n),
        1 <= c <= n,
        rho::rho_divisor(n, c) < n,
        forall|b: nat| 1 <= b < c ==> #[trigger] rho::rho_divisor(n, b) == n,
    ensures
        factors_of(n) == factors_of(rho::rho_divisor(n, c)) + factors_of(
            n / rho::rho_divisor(n, c),
        ),
{
    lemma_trial_primes();
    assert forall|k: int| !first_trial_prime(n, k) by {
        if 0 <= k < 9 {
            assert(arith::prime(TRIAL_PRIMES@[k] as nat));
            assert(TRIAL_PRIMES@[k] < 29) by {
                let w = TRIAL_PRIMES@;
                assert(w[0] == 2 && w[1] == 3 && w[2] == 5 && w[3] == 7 && w[4] == 11 && w[5]
                    == 13 && w[6] == 17 && w[7] == 19 && w[8] == 23);
            }
        }
    }
    assert(first_constant(n, c));
    lemma_first_constant_unique(n, c);
    lemma_split(n);
}

/// Law: zero and one have no factors, and every other number has some.
pub proof fn law_factors_none(n: nat)
    ensures
        factors_of(n).len() == 0 <==> n <= 1,
{
    if n > 1 {
        law_factors_product(n);
    }
}

/// Law: the factors of a product are those of the two numbers together.
pub proof fn law_factors_multiply(a: nat, b: nat)
    requires
        a >= 1,
        b >= 1,
    ensures
        factors_of(a * b).to_multiset() == (factors_of(a) + factors_of(b)).to_multiset(),
{
    let s = factors_of(a) + factors_of(b);
    law_factors_product(a);
    law_factors_product(b);
    product::lemma_product_concat(factors_of(a), factors_of(b));
    assert forall|i: int| 0 <= i < s.len() implies arith::prime(#[trigger] s[i]) by {
        if i < factors_of(a).len() {
            law_factors_prime(a, i);
        } else {
            law_factors_prime(b, i - factors_of(a).len());
        }
    }
    assert(a * b >= 1) by (nonlinear_arith)
        requires
            a >= 1,
            b >= 1,
    ;
    law_factors_complete(a * b, s);
}

/// Law: the least divisor of a number from two on is prime, and no prime factor is
/// smaller.
pub proof fn law_least_divisor(n: nat, d: nat, p: nat)
    requires
        n >= 2,
        least_divisor(n, d),
        arith::prime(p),
        arith::divides(p, n),
    ensures
        arith::prime(d),
        arith::divides(d, n),
        d <= p,
{
    if p < d {
        assert(!arith::divides(p, n));
    }
    let q = arith::lemma_prime_divisor(d);
    arith::lemma_divides_trans(q, d, n);
    arith::lemma_divides_le(q, d);
    if q < d {
        assert(!arith::divides(q, n));
    }
}

/// Law: the factors of `n` have one ascending order only.
pub proof fn law_sorted_factors_unique(s: Seq<nat>, t: Seq<nat>, n: nat)
    requires
        ascending(s),
        ascending(t),
        s.to_multiset() == factors_of(n).to_multiset(),
        t.to_multiset() == factors_of(n).to_multiset(),
    ensures
        s == t,
{
    let leq = |x: nat, y: nat| x <= y;
    assert(vstd::relations::sorted_by(s, leq));
    assert(vstd::relations::sorted_by(t, leq));
    vstd::seq_lib::lemma_sorted_unique(s, t, leq);
}

} // verus!
