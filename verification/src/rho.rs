//! Pollard's rho in Brent's variant: cycle detection with batched greatest
//! common divisors.
//!
//! The iteration `x -> x^2 + c` modulo `n` runs from two. Round `m` fixes the
//! value at position `2 * (2^m - 1)`, skips `2^m` positions and compares the
//! fixed value with each of the next `2^m`, in batches of 128.

use crate::arith;
use crate::modular::{gcd, mod_mul};
use crate::product;
use vstd::arithmetic::div_mod::*;
use vstd::arithmetic::mul::*;
use vstd::arithmetic::power2::*;
use vstd::prelude::*;
use vstd::set_lib::*;

verus! {

/// How many differences one batch multiplies up before it takes the greatest
/// common divisor.
pub const BATCH: u64 = 128;

/// The value at position `i` of the iteration.
pub open spec fn orbit(n: nat, c: nat, i: nat) -> nat
    decreases i,
{
    if i == 0 {
        2
    } else {
        let x = orbit(n, c, (i - 1) as nat);
        (x * x + c) % n
    }
}

/// The distance between two numbers.
pub open spec fn distance(x: nat, y: nat) -> nat {
    if x > y {
        (x - y) as nat
    } else {
        (y - x) as nat
    }
}

/// The difference with the fixed value at the `j`-th comparison of round `m`,
/// counted from one.
pub open spec fn gap(n: nat, c: nat, m: nat, j: nat) -> nat {
    let r = pow2(m);
    distance(orbit(n, c, (2 * (r - 1)) as nat), orbit(n, c, (3 * r - 2 + j) as nat))
}

/// The product of `t` differences of round `m` from the `k`-th on.
pub open spec fn gap_product(n: nat, c: nat, m: nat, k: nat, t: nat) -> nat
    decreases t,
{
    if t == 0 {
        1
    } else {
        gap_product(n, c, m, k, (t - 1) as nat) * gap(n, c, m, k + t)
    }
}

/// How many comparisons the batch of round `m` at offset `k` makes.
pub open spec fn batch_len(m: nat, k: nat) -> nat {
    if pow2(m) - k < BATCH {
        (pow2(m) - k) as nat
    } else {
        BATCH as nat
    }
}

/// Round `m` has a batch at offset `k`.
pub open spec fn is_batch(m: nat, k: nat) -> bool {
    k % (BATCH as nat) == 0 && k < pow2(m)
}

/// What the batch of round `m` at offset `k` has in common with `n`.
pub open spec fn batch_gcd(n: nat, c: nat, m: nat, k: nat) -> nat {
    arith::gcd_of(gap_product(n, c, m, k, batch_len(m, k)), n)
}

/// A batch comes before another one.
pub open spec fn batch_before(m: nat, k: nat, m2: nat, k2: nat) -> bool {
    m < m2 || (m == m2 && k < k2)
}

/// The first batch that has a factor in common with `n`.
pub open spec fn first_hit(n: nat, c: nat, m: nat, k: nat) -> bool {
    &&& is_batch(m, k)
    &&& batch_gcd(n, c, m, k) != 1
    &&& forall|m1: nat, k1: nat| #[trigger]
        is_batch(m1, k1) && batch_before(m1, k1, m, k) ==> batch_gcd(n, c, m1, k1) == 1
}

/// The first comparison of the batch of round `m` at offset `k` whose difference
/// has a factor in common with `n`.
pub open spec fn first_gap(n: nat, c: nat, m: nat, k: nat, j: nat) -> bool {
    &&& k < j <= k + batch_len(m, k)
    &&& arith::gcd_of(gap(n, c, m, j), n) != 1
    &&& forall|i: nat| k < i < j ==> arith::gcd_of(#[trigger] gap(n, c, m, i), n) == 1
}

/// What a batch yields: what it has in common with `n`, or, where that is all
/// of `n`, what its first difference that has a factor in common with `n` does.
pub open spec fn batch_divisor(n: nat, c: nat, m: nat, k: nat) -> nat {
    if batch_gcd(n, c, m, k) != n {
        batch_gcd(n, c, m, k)
    } else {
        let j = choose|j: nat| first_gap(n, c, m, k, j);
        arith::gcd_of(gap(n, c, m, j), n)
    }
}

/// The divisor of `n` that the iteration with the constant `c` finds: what the
/// first batch yields that has a factor in common with `n`.
pub open spec fn rho_divisor(n: nat, c: nat) -> nat {
    let (m, k) = choose|m: nat, k: nat| first_hit(n, c, m, k);
    batch_divisor(n, c, m, k)
}

proof fn lemma_first_hit_unique(n: nat, c: nat, m: nat, k: nat)
    requires
        first_hit(n, c, m, k),
    ensures
        rho_divisor(n, c) == batch_divisor(n, c, m, k),
{
    let (m2, k2) = choose|m2: nat, k2: nat| first_hit(n, c, m2, k2);
    assert(first_hit(n, c, m2, k2));
    assert(is_batch(m, k) && is_batch(m2, k2));
    assert(!batch_before(m, k, m2, k2));
    assert(!batch_before(m2, k2, m, k));
    assert(m == m2 && k == k2);
}

proof fn lemma_first_gap_unique(n: nat, c: nat, m: nat, k: nat, j: nat)
    requires
        first_gap(n, c, m, k, j),
        batch_gcd(n, c, m, k) == n,
    ensures
        batch_divisor(n, c, m, k) == arith::gcd_of(gap(n, c, m, j), n),
{
    let i = choose|i: nat| first_gap(n, c, m, k, i);
    assert(first_gap(n, c, m, k, i));
    if i < j {
        assert(arith::gcd_of(gap(n, c, m, i), n) == 1);
    }
    if j < i {
        assert(arith::gcd_of(gap(n, c, m, j), n) == 1);
    }
}

/// A batch whose differences are all coprime to `n` is so too.
proof fn lemma_coprime_gaps(n: nat, c: nat, m: nat, k: nat, t: nat)
    requires
        forall|i: nat| k < i <= k + t ==> arith::gcd_of(#[trigger] gap(n, c, m, i), n) == 1,
    ensures
        arith::gcd_of(gap_product(n, c, m, k, t), n) == 1,
    decreases t,
{
    if t == 0 {
        arith::lemma_gcd_divides(1, n);
        arith::lemma_divides_le(arith::gcd_of(1, n), 1);
    } else {
        let s = (t - 1) as nat;
        lemma_coprime_gaps(n, c, m, k, s);
        arith::lemma_gcd_coprime_factor(gap_product(n, c, m, k, s), gap(n, c, m, k + t), n);
    }
}

/// A divisor of one difference divides the product.
proof fn lemma_gap_divides(n: nat, c: nat, m: nat, k: nat, t: nat, j: nat, p: nat)
    requires
        k < j <= k + t,
        arith::divides(p, gap(n, c, m, j)),
    ensures
        arith::divides(p, gap_product(n, c, m, k, t)),
    decreases t,
{
    let s = (t - 1) as nat;
    if j == k + t {
        arith::lemma_divides_mul(p, gap(n, c, m, j), gap_product(n, c, m, k, s));
    } else {
        lemma_gap_divides(n, c, m, k, s, j, p);
        arith::lemma_divides_mul(p, gap_product(n, c, m, k, s), gap(n, c, m, k + t));
    }
}

/// Once two values agree modulo a divisor of `n`, so do their successors.
proof fn lemma_orbit_successor(n: nat, c: nat, p: nat, i: nat, j: nat)
    requires
        n > 0,
        p > 0,
        arith::divides(p, n),
        orbit(n, c, i) % p == orbit(n, c, j) % p,
    ensures
        orbit(n, c, i + 1) % p == orbit(n, c, j + 1) % p,
{
    let x = orbit(n, c, i);
    let y = orbit(n, c, j);
    arith::lemma_mod_divisor(x * x + c, n, p);
    arith::lemma_mod_divisor(y * y + c, n, p);
    lemma_mul_mod_noop_general(x as int, x as int, p as int);
    lemma_mul_mod_noop_general(y as int, y as int, p as int);
    lemma_add_mod_noop((x * x) as int, c as int, p as int);
    lemma_add_mod_noop((y * y) as int, c as int, p as int);
}

proof fn lemma_orbit_shift(n: nat, c: nat, p: nat, i: nat, j: nat, s: nat)
    requires
        n > 0,
        p > 0,
        arith::divides(p, n),
        orbit(n, c, i) % p == orbit(n, c, j) % p,
    ensures
        orbit(n, c, i + s) % p == orbit(n, c, j + s) % p,
    decreases s,
{
    if s > 0 {
        let u = (s - 1) as nat;
        lemma_orbit_shift(n, c, p, i, j, u);
        lemma_orbit_successor(n, c, p, i + u, j + u);
    }
}

/// Past the first repetition the iteration is periodic modulo a divisor of `n`.
proof fn lemma_orbit_periodic(n: nat, c: nat, p: nat, i: nat, period: nat, a: nat, t: nat)
    requires
        n > 0,
        p > 0,
        arith::divides(p, n),
        orbit(n, c, i) % p == orbit(n, c, i + period) % p,
        a >= i,
    ensures
        orbit(n, c, a) % p == orbit(n, c, a + t * period) % p,
    decreases t,
{
    if t == 0 {
        assert(t * period == 0);
    } else {
        let u = (t - 1) as nat;
        lemma_orbit_periodic(n, c, p, i, period, a, u);
        assert(t * period == u * period + period) by (nonlinear_arith)
            requires
                t == u + 1,
        ;
        assert(u * period >= 0) by (nonlinear_arith)
            requires
                u >= 0,
                period >= 0,
        ;
        let s = (a - i + u * period) as nat;
        lemma_orbit_shift(n, c, p, i, i + period, s);
    }
}

/// Two of the first `p + 1` values agree modulo `p`.
proof fn lemma_orbit_repeats(n: nat, c: nat, p: nat) -> (ij: (nat, nat))
    requires
        p > 0,
    ensures
        ij.0 < ij.1 <= p,
        orbit(n, c, ij.0) % p == orbit(n, c, ij.1) % p,
{
    let s = Seq::new(p + 1, |i: int| (orbit(n, c, i as nat) % p) as int);
    if s.no_duplicates() {
        s.unique_seq_to_set();
        let range = set_int_range(0, p as int);
        lemma_int_range(0, p as int);
        assert forall|x: int| s.to_set().contains(x) implies range.contains(x) by {
            let i = choose|i: int| 0 <= i < s.len() && s[i] == x;
            lemma_mod_bound(orbit(n, c, i as nat) as int, p as int);
        }
        lemma_len_subset(s.to_set(), range);
    }
    let (i, j) = choose|i: int, j: int|
        0 <= i < s.len() && 0 <= j < s.len() && i != j && s[i] == s[j];
    if i < j {
        (i as nat, j as nat)
    } else {
        (j as nat, i as nat)
    }
}

/// A round at least as long as a divisor of `n` has a batch with a factor in
/// common with `n`.
proof fn lemma_round_hits(n: nat, c: nat, p: nat, m: nat) -> (k: nat)
    requires
        n > 0,
        p >= 2,
        arith::divides(p, n),
        p <= pow2(m),
    ensures
        is_batch(m, k),
        batch_gcd(n, c, m, k) != 1,
{
    let r = pow2(m);
    let (i, j) = lemma_orbit_repeats(n, c, p);
    let period = (j - i) as nat;
    let a = (2 * (r - 1)) as nat;
    let t = r / period + 1;
    lemma_fundamental_div_mod(r as int, period as int);
    assert(t * period == period * (r / period) + period) by (nonlinear_arith)
        requires
            t == r / period + 1,
    ;
    let g = (t * period - r) as nat;
    assert(0 < g <= r);
    lemma_orbit_periodic(n, c, p, i, period, a, t);
    let x = orbit(n, c, a);
    let y = orbit(n, c, a + t * period);
    assert(a + t * period == 3 * r - 2 + g);
    lemma_mod_equivalence(x as int, y as int, p as int);
    lemma_mod_equivalence(y as int, x as int, p as int);
    assert(arith::divides(p, gap(n, c, m, g)));
    let k = ((g - 1) / 128 * 128) as nat;
    assert(is_batch(m, k));
    let len = batch_len(m, k);
    assert(k < g <= k + len);
    lemma_gap_divides(n, c, m, k, len, g, p);
    arith::lemma_gcd_greatest(gap_product(n, c, m, k, len), n, p);
    if batch_gcd(n, c, m, k) == 1 {
        arith::lemma_divides_le(p, 1);
    }
    k
}

/// If any batch has a factor in common with `n`, there is a first one.
proof fn lemma_first_hit_exists(n: nat, c: nat, m: nat, k: nat)
    requires
        is_batch(m, k),
        batch_gcd(n, c, m, k) != 1,
    ensures
        exists|m1: nat, k1: nat| first_hit(n, c, m1, k1),
    decreases m, k,
{
    if !first_hit(n, c, m, k) {
        let (m1, k1) = choose|m1: nat, k1: nat| #[trigger]
            is_batch(m1, k1) && batch_before(m1, k1, m, k) && batch_gcd(n, c, m1, k1) != 1;
        lemma_first_hit_exists(n, c, m1, k1);
    }
}

/// If all of `n` is in a batch, one of its differences is the first to have a
/// factor in common with `n`.
proof fn lemma_first_gap_exists(n: nat, c: nat, m: nat, k: nat, t: nat)
    requires
        t <= batch_len(m, k),
        arith::gcd_of(gap_product(n, c, m, k, t), n) != 1,
    ensures
        exists|j: nat| first_gap(n, c, m, k, j),
    decreases t,
{
    if t == 0 {
        lemma_coprime_gaps(n, c, m, k, t);
    } else {
        let s = (t - 1) as nat;
        if arith::gcd_of(gap_product(n, c, m, k, s), n) != 1 {
            lemma_first_gap_exists(n, c, m, k, s);
        } else if exists|i: nat|
            k < i < k + t && arith::gcd_of(#[trigger] gap(n, c, m, i), n) != 1 {
            let i = choose|i: nat|
                k < i < k + t && arith::gcd_of(#[trigger] gap(n, c, m, i), n) != 1;
            let g = arith::gcd_of(gap(n, c, m, i), n);
            let w = gap_product(n, c, m, k, s);
            arith::lemma_gcd_divides(gap(n, c, m, i), n);
            lemma_gap_divides(n, c, m, k, s, i, g);
            arith::lemma_gcd_greatest(w, n, g);
            arith::lemma_divides_le(g, 1);
        } else {
            arith::lemma_gcd_coprime_factor(
                gap_product(n, c, m, k, s),
                gap(n, c, m, k + t),
                n,
            );
            assert(first_gap(n, c, m, k, k + t));
        }
    }
}

/// Law: whatever the constant, the iteration finds a divisor of `n` other than
/// one, and there is a first batch in which it does.
pub proof fn law_rho_divides(n: nat, c: nat)
    requires
        n >= 2,
    ensures
        exists|m: nat, k: nat| first_hit(n, c, m, k),
        1 < rho_divisor(n, c) <= n,
        arith::divides(rho_divisor(n, c), n),
{
    arith::lemma_divides_refl(n);
    lemma_pow2_at_least(n);
    let k0 = lemma_round_hits(n, c, n, n);
    lemma_first_hit_exists(n, c, n, k0);
    let (m, k) = choose|m: nat, k: nat| first_hit(n, c, m, k);
    assert(first_hit(n, c, m, k));
    let w = gap_product(n, c, m, k, batch_len(m, k));
    arith::lemma_gcd_divides(w, n);
    if batch_gcd(n, c, m, k) == n {
        lemma_first_gap_exists(n, c, m, k, batch_len(m, k));
        let j = choose|j: nat| first_gap(n, c, m, k, j);
        arith::lemma_gcd_divides(gap(n, c, m, j), n);
    }
    arith::lemma_divides_le(rho_divisor(n, c), n);
}

proof fn lemma_pow2_at_least(n: nat)
    ensures
        n < pow2(n),
    decreases n,
{
    if n == 0 {
        lemma2_to64();
    } else {
        lemma_pow2_at_least((n - 1) as nat);
        lemma_pow2_unfold(n);
    }
}

proof fn lemma_orbit_constant(n: nat, c: nat, i: nat)
    requires
        n > 0,
    ensures
        orbit(n, c % n, i) == orbit(n, c, i),
    decreases i,
{
    if i > 0 {
        let j = (i - 1) as nat;
        lemma_orbit_constant(n, c, j);
        let x = orbit(n, c, j);
        lemma_add_mod_noop((x * x) as int, c as int, n as int);
        lemma_add_mod_noop((x * x) as int, (c % n) as int, n as int);
        lemma_mod_twice(c as int, n as int);
    }
}

proof fn lemma_gap_product_constant(n: nat, c: nat, m: nat, k: nat, t: nat)
    requires
        n > 0,
    ensures
        gap_product(n, c % n, m, k, t) == gap_product(n, c, m, k, t),
    decreases t,
{
    if t > 0 {
        lemma_gap_product_constant(n, c, m, k, (t - 1) as nat);
        lemma_gap_constant(n, c, m, k + t);
    }
}

proof fn lemma_gap_constant(n: nat, c: nat, m: nat, j: nat)
    requires
        n > 0,
    ensures
        gap(n, c % n, m, j) == gap(n, c, m, j),
{
    lemma_orbit_constant(n, c, (2 * (pow2(m) - 1)) as nat);
    lemma_orbit_constant(n, c, (3 * pow2(m) - 2 + j) as nat);
}

/// Law: the constant matters modulo `n` only.
pub proof fn law_rho_constant_modulo(n: nat, c: nat)
    requires
        n >= 2,
    ensures
        rho_divisor(n, c % n) == rho_divisor(n, c),
{
    let b = c % n;
    law_rho_divides(n, c);
    let (m, k) = choose|m: nat, k: nat| first_hit(n, c, m, k);
    assert(first_hit(n, c, m, k));
    assert forall|m1: nat, k1: nat| batch_gcd(n, b, m1, k1) == batch_gcd(n, c, m1, k1) by {
        lemma_gap_product_constant(n, c, m1, k1, batch_len(m1, k1));
    }
    assert(first_hit(n, b, m, k));
    lemma_first_hit_unique(n, b, m, k);
    if batch_gcd(n, c, m, k) == n {
        lemma_first_gap_exists(n, c, m, k, batch_len(m, k));
        let j = choose|j: nat| first_gap(n, c, m, k, j);
        assert(first_gap(n, c, m, k, j));
        assert forall|i: nat| gap(n, b, m, i) == gap(n, c, m, i) by {
            lemma_gap_constant(n, c, m, i);
        }
        assert(first_gap(n, b, m, k, j));
        lemma_first_gap_unique(n, b, m, k, j);
    }
}

/// One step of the iteration.
fn rho_step(x: u64, n: u64, c: u64) -> (y: u64)
    requires
        n > 0,
    ensures
        y == (x * x + c) % n as int,
{
    let s = mod_mul(x, x, n);
    proof {
        lemma_add_mod_noop((x * x) as int, c as int, n as int);
        lemma_add_mod_noop(s as int, c as int, n as int);
        lemma_mod_twice((x * x) as int, n as int);
    }
    ((s as u128 + c as u128) % n as u128) as u64
}

/// `steps` steps of the iteration, without comparisons.
fn advance(y: u64, n: u64, c: u64, steps: u128, Ghost(i): Ghost<nat>) -> (z: u64)
    requires
        n > 0,
        y == orbit(n as nat, c as nat, i),
    ensures
        z == orbit(n as nat, c as nat, i + steps as nat),
{
    let mut z: u64 = y;
    let mut s: u128 = 0;
    while s < steps
        invariant
            n > 0,
            s <= steps,
            z == orbit(n as nat, c as nat, i + s as nat),
        decreases steps - s,
    {
        z = rho_step(z, n, c);
        s = s + 1;
    }
    z
}

fn abs_diff(x: u64, y: u64) -> (d: u64)
    ensures
        d == distance(x as nat, y as nat),
{
    if x > y {
        x - y
    } else {
        y - x
    }
}

/// The comparisons of one batch: the position that they reach, and the running
/// product with their differences multiplied in.
fn compare_batch(
    x: u64,
    y: u64,
    q: u64,
    n: u64,
    c: u64,
    steps: u64,
    Ghost(m): Ghost<nat>,
    Ghost(k): Ghost<nat>,
) -> (res: (u64, u64))
    requires
        n > 0,
        x == orbit(n as nat, c as nat, (2 * (pow2(m) - 1)) as nat),
        y == orbit(n as nat, c as nat, (3 * pow2(m) - 2 + k) as nat),
        pow2(m) > 0,
        arith::gcd_of(q as nat, n as nat) == 1,
    ensures
        res.0 == orbit(n as nat, c as nat, (3 * pow2(m) - 2 + k + steps) as nat),
        arith::gcd_of(res.1 as nat, n as nat) == arith::gcd_of(
            gap_product(n as nat, c as nat, m, k, steps as nat),
            n as nat,
        ),
{
    let ghost nn = n as nat;
    let ghost cc = c as nat;
    let mut y: u64 = y;
    let mut p: u64 = q;
    let mut t: u64 = 0;
    assert(q * 1 == q);
    while t < steps
        invariant
            n > 0,
            nn == n,
            cc == c,
            t <= steps,
            pow2(m) > 0,
            x == orbit(nn, cc, (2 * (pow2(m) - 1)) as nat),
            y == orbit(nn, cc, (3 * pow2(m) - 2 + k + t) as nat),
            p % n == (q * gap_product(nn, cc, m, k, t as nat)) % nn as int,
        decreases steps - t,
    {
        y = rho_step(y, n, c);
        let d = abs_diff(x, y);
        proof {
            let w = q * gap_product(nn, cc, m, k, t as nat);
            assert(d == gap(nn, cc, m, (k + t + 1) as nat));
            lemma_mul_mod_noop_general(p as int, d as int, nn as int);
            lemma_mul_mod_noop_general(w, d as int, nn as int);
            lemma_mul_is_associative(
                q as int,
                gap_product(nn, cc, m, k, t as nat) as int,
                d as int,
            );
            lemma_mod_twice(p * d, nn as int);
        }
        p = mod_mul(p, d, n);
        t = t + 1;
    }
    proof {
        let g = gap_product(nn, cc, m, k, steps as nat);
        arith::lemma_gcd_mod(p as nat, nn);
        arith::lemma_gcd_mod((q * g) as nat, nn);
        arith::lemma_gcd_coprime_factor(q as nat, g, nn);
    }
    (y, p)
}

/// The first divisor that a batch yields difference by difference.
fn retrace_batch(
    x: u64,
    ys: u64,
    n: u64,
    c: u64,
    Ghost(m): Ghost<nat>,
    Ghost(k): Ghost<nat>,
) -> (d: u64)
    requires
        n >= 2,
        x == orbit(n as nat, c as nat, (2 * (pow2(m) - 1)) as nat),
        ys == orbit(n as nat, c as nat, (3 * pow2(m) - 2 + k) as nat),
        pow2(m) > 0,
        batch_gcd(n as nat, c as nat, m, k) == n,
    ensures
        d == batch_divisor(n as nat, c as nat, m, k),
        d != 1,
        arith::divides(d as nat, n as nat),
{
    let ghost nn = n as nat;
    let ghost cc = c as nat;
    let ghost len = batch_len(m, k);
    let mut ys: u64 = ys;
    let mut j: Ghost<nat> = Ghost(k);
    loop
        invariant
            n >= 2,
            nn == n,
            cc == c,
            pow2(m) > 0,
            len == batch_len(m, k),
            k <= j@ <= k + len,
            x == orbit(nn, cc, (2 * (pow2(m) - 1)) as nat),
            ys == orbit(nn, cc, (3 * pow2(m) - 2 + j@) as nat),
            batch_gcd(nn, cc, m, k) == n,
            forall|i: nat| k < i <= j@ ==> arith::gcd_of(#[trigger] gap(nn, cc, m, i), nn) == 1,
        decreases k + len - j@,
    {
        proof {
            if j@ == k + len {
                lemma_coprime_gaps(nn, cc, m, k, len);
            }
        }
        ys = rho_step(ys, n, c);
        j = Ghost((j@ + 1) as nat);
        let d = gcd(abs_diff(x, ys), n);
        assert(d == arith::gcd_of(gap(nn, cc, m, j@), nn));
        if d != 1 {
            proof {
                arith::lemma_gcd_divides(gap(nn, cc, m, j@), nn);
                assert(first_gap(nn, cc, m, k, j@));
                lemma_first_gap_unique(nn, cc, m, k, j@);
            }
            return d;
        }
    }
}

/// A divisor of `n` other than one, by Brent's variant of Pollard's rho with the
/// additive constant `c`. It may be `n` itself: then another constant may do
/// better.
///
/// A round that is at least as long as a divisor of `n` is the last one.
pub fn pollard_brent(n: u64, c: u64) -> (d: u64)
    requires
        n >= 2,
    ensures
        d == rho_divisor(n as nat, c as nat),
        exists|m: nat, k: nat| first_hit(n as nat, c as nat, m, k),
        1 < d <= n,
        arith::divides(d as nat, n as nat),
{
    let ghost nn = n as nat;
    let ghost cc = c as nat;
    proof {
        arith::lemma_divides_refl(nn);
        lemma2_to64();
        arith::lemma_gcd_divides(1, nn);
        arith::lemma_divides_le(arith::gcd_of(1, nn), 1);
    }
    let mut y: u64 = 2;
    let mut r: u128 = 1;
    let mut q: u64 = 1;
    let mut m: Ghost<nat> = Ghost(0);
    loop
        invariant
            n >= 2,
            nn == n,
            cc == c,
            arith::divides(nn, nn),
            r == pow2(m@),
            1 <= r < 2 * n,
            y == orbit(nn, cc, (2 * (r - 1)) as nat),
            arith::gcd_of(q as nat, nn) == 1,
            forall|m1: nat, k1: nat| #[trigger]
                is_batch(m1, k1) && m1 < m@ ==> batch_gcd(nn, cc, m1, k1) == 1,
        decreases 2 * n - r,
    {
        let x = y;
        y = advance(y, n, c, r, Ghost((2 * (r - 1)) as nat));
        let mut k: u128 = 0;
        while k < r
            invariant
                n >= 2,
                nn == n,
                cc == c,
                r == pow2(m@),
                1 <= r < 2 * n,
                k % 128 == 0,
                k < r + 128,
                x == orbit(nn, cc, (2 * (r - 1)) as nat),
                k < r ==> y == orbit(nn, cc, (3 * r - 2 + k) as nat),
                k >= r ==> y == orbit(nn, cc, (4 * r - 2) as nat),
                arith::gcd_of(q as nat, nn) == 1,
                forall|m1: nat, k1: nat| #[trigger]
                    is_batch(m1, k1) && batch_before(m1, k1, m@, k as nat) ==> batch_gcd(
                        nn,
                        cc,
                        m1,
                        k1,
                    ) == 1,
            decreases r + 128 - k,
        {
            let ys = y;
            let steps: u64 = if r - k < BATCH as u128 {
                (r - k) as u64
            } else {
                BATCH
            };
            assert(is_batch(m@, k as nat));
            assert(steps == batch_len(m@, k as nat));
            let (y1, q1) = compare_batch(x, y, q, n, c, steps, m, Ghost(k as nat));
            y = y1;
            q = q1;
            let d = gcd(q, n);
            assert(d == batch_gcd(nn, cc, m@, k as nat));
            if d != 1 {
                proof {
                    let g = gap_product(nn, cc, m@, k as nat, steps as nat);
                    arith::lemma_gcd_divides(g, nn);
                    arith::lemma_divides_le(d as nat, nn);
                    assert(first_hit(nn, cc, m@, k as nat));
                    lemma_first_hit_unique(nn, cc, m@, k as nat);
                }
                if d == n {
                    let e = retrace_batch(x, ys, n, c, m, Ghost(k as nat));
                    proof {
                        arith::lemma_divides_le(e as nat, nn);
                    }
                    return e;
                }
                return d;
            }
            proof {
                assert forall|m1: nat, k1: nat| #[trigger]
                    is_batch(m1, k1) && batch_before(
                        m1,
                        k1,
                        m@,
                        (k + 128) as nat,
                    ) implies batch_gcd(nn, cc, m1, k1) == 1 by {
                    if m1 == m@ && k1 >= k {
                        assert(k1 == k);
                    }
                }
            }
            k = k + BATCH as u128;
        }
        proof {
            if nn <= r {
                let k1 = lemma_round_hits(nn, cc, nn, m@);
                assert(is_batch(m@, k1));
                assert(batch_before(m@, k1, m@, k as nat));
            }
            lemma_pow2_unfold((m@ + 1) as nat);
            assert forall|m1: nat, k1: nat| #[trigger]
                is_batch(m1, k1) && m1 < m@ + 1 implies batch_gcd(nn, cc, m1, k1) == 1 by {
                assert(batch_before(m1, k1, m@, k as nat));
            }
        }
        r = r * 2;
        m = Ghost((m@ + 1) as nat);
    }
}

/// The `j`-th difference of round `m` of a sequence of values, counted from one: between
/// the value at `2 * 2^m - 2` and the one at `3 * 2^m - 2 + j`.
pub open spec fn difference(x: spec_fn(nat) -> nat, m: nat, j: nat) -> nat {
    let a = x((2 * pow2(m) - 2) as nat);
    let b = x((3 * pow2(m) - 2 + j) as nat);
    if a <= b {
        (b - a) as nat
    } else {
        (a - b) as nat
    }
}

/// The `t` differences of round `m` from the `k`-th on.
pub open spec fn differences(x: spec_fn(nat) -> nat, m: nat, k: nat, t: nat) -> Seq<nat> {
    Seq::new(t, |i: int| difference(x, m, (k + 1 + i) as nat))
}

/// The differences of round `m` that are multiplied up from the `k`-th on: 128 of them,
/// or what is left of the round.
pub open spec fn batch(x: spec_fn(nat) -> nat, m: nat, k: nat) -> Seq<nat> {
    differences(
        x,
        m,
        k,
        if pow2(m) - k < 128 {
            (pow2(m) - k) as nat
        } else {
            128
        },
    )
}

/// Every difference up to the `k`-th of round `m` is coprime to `n`.
pub open spec fn coprime_before(n: nat, x: spec_fn(nat) -> nat, m: nat, k: nat) -> bool {
    forall|i: nat, j: nat|
        1 <= j <= pow2(i) && (i < m || (i == m && j <= k)) ==> arith::gcd_of(
            #[trigger] difference(x, i, j),
            n,
        ) == 1
}

proof fn lemma_orbit_is(n: nat, c: nat, x: spec_fn(nat) -> nat, i: nat)
    requires
        x(0) == 2,
        forall|i: nat| #[trigger] x(i + 1) == (x(i) * x(i) + c) % n,
    ensures
        orbit(n, c, i) == x(i),
    decreases i,
{
    if i > 0 {
        let j = (i - 1) as nat;
        lemma_orbit_is(n, c, x, j);
        assert(x(j + 1) == (x(j) * x(j) + c) % n);
    }
}

proof fn lemma_gap_is(n: nat, c: nat, x: spec_fn(nat) -> nat, m: nat, j: nat)
    requires
        x(0) == 2,
        forall|i: nat| #[trigger] x(i + 1) == (x(i) * x(i) + c) % n,
    ensures
        gap(n, c, m, j) == difference(x, m, j),
{
    lemma_pow2_pos(m);
    lemma_orbit_is(n, c, x, (2 * pow2(m) - 2) as nat);
    lemma_orbit_is(n, c, x, (3 * pow2(m) - 2 + j) as nat);
}

proof fn lemma_gap_product_is(n: nat, c: nat, x: spec_fn(nat) -> nat, m: nat, k: nat, t: nat)
    requires
        x(0) == 2,
        forall|i: nat| #[trigger] x(i + 1) == (x(i) * x(i) + c) % n,
    ensures
        gap_product(n, c, m, k, t) == product::product(differences(x, m, k, t)),
    decreases t,
{
    if t > 0 {
        let s = (t - 1) as nat;
        lemma_gap_product_is(n, c, x, m, k, s);
        lemma_gap_is(n, c, x, m, k + t);
        assert(differences(x, m, k, t).drop_last() =~= differences(x, m, k, s));
    }
}

/// Law: for any values that start at two and go on by `x * x + c` modulo `n`, the divisor
/// is taken from the first batch of differences that are not all coprime to `n`. It is
/// what the product of the batch has in common with `n`, unless that is `n`; then it is
/// what the first difference of the batch that is not coprime to `n` has in common with
/// it.
pub proof fn law_rho_batches(n: nat, c: nat, x: spec_fn(nat) -> nat)
    requires
        n >= 2,
        x(0) == 2,
        forall|i: nat| #[trigger] x(i + 1) == (x(i) * x(i) + c) % n,
    ensures
        exists|m: nat, k: nat|
            {
                let g = arith::gcd_of(product::product(batch(x, m, k)), n);
                &&& k % 128 == 0
                &&& k < pow2(m)
                &&& #[trigger] coprime_before(n, x, m, k)
                &&& g != 1
                &&& g != n ==> rho_divisor(n, c) == g
                &&& g == n ==> exists|j: nat|
                    {
                        &&& k < j <= k + batch(x, m, k).len()
                        &&& coprime_before(n, x, m, (j - 1) as nat)
                        &&& rho_divisor(n, c) == arith::gcd_of(#[trigger] difference(x, m, j), n)
                        &&& rho_divisor(n, c) != 1
                    }
            },
{
    law_rho_divides(n, c);
    let (m, k) = choose|m: nat, k: nat| first_hit(n, c, m, k);
    assert(first_hit(n, c, m, k));
    let len = batch_len(m, k);
    lemma_gap_product_is(n, c, x, m, k, len);
    let g = arith::gcd_of(product::product(batch(x, m, k)), n);
    assert(g == batch_gcd(n, c, m, k));
    assert forall|i: nat, j: nat|
        1 <= j <= pow2(i) && (i < m || (i == m && j <= k)) implies arith::gcd_of(
        #[trigger] difference(x, i, j),
        n,
    ) == 1 by {
        let k1 = ((j - 1) / 128 * 128) as nat;
        assert(is_batch(i, k1));
        assert(batch_before(i, k1, m, k));
        assert(batch_gcd(n, c, i, k1) == 1);
        lemma_gap_is(n, c, x, i, j);
        lemma_gap_coprime(n, c, i, k1, batch_len(i, k1), j);
    }
    assert(coprime_before(n, x, m, k));
    if g == n {
        lemma_first_gap_exists(n, c, m, k, len);
        let j = choose|j: nat| first_gap(n, c, m, k, j);
        assert(first_gap(n, c, m, k, j));
        lemma_gap_is(n, c, x, m, j);
        assert forall|i: nat, l: nat|
            1 <= l <= pow2(i) && (i < m || (i == m && l <= j - 1)) implies arith::gcd_of(
            #[trigger] difference(x, i, l),
            n,
        ) == 1 by {
            if i == m && l > k {
                lemma_gap_is(n, c, x, m, l);
                assert(arith::gcd_of(gap(n, c, m, l), n) == 1);
            }
        }
        assert(coprime_before(n, x, m, (j - 1) as nat));
        assert(rho_divisor(n, c) == arith::gcd_of(difference(x, m, j), n));
    }
}

/// In a batch that is coprime to `n`, every difference is.
proof fn lemma_gap_coprime(n: nat, c: nat, m: nat, k: nat, t: nat, j: nat)
    requires
        n >= 1,
        k < j <= k + t,
        arith::gcd_of(gap_product(n, c, m, k, t), n) == 1,
    ensures
        arith::gcd_of(gap(n, c, m, j), n) == 1,
{
    let g = arith::gcd_of(gap(n, c, m, j), n);
    arith::lemma_gcd_divides(gap(n, c, m, j), n);
    lemma_gap_divides(n, c, m, k, t, j, g);
    arith::lemma_gcd_greatest(gap_product(n, c, m, k, t), n, g);
    arith::lemma_divides_le(g, 1);
}

} // verus!
