//! Fermat's little theorem and square roots of one modulo a prime.

use crate::arith;
use crate::product;
use vstd::arithmetic::div_mod::*;
use vstd::arithmetic::mul::*;
use vstd::arithmetic::power::*;
use vstd::prelude::*;
use vstd::set_lib::*;

verus! {

/// The numbers `1, .., n`.
spec fn first(n: nat) -> Seq<nat> {
    Seq::new(n, |i: int| (i + 1) as nat)
}

/// The multiples `a, 2a, .., na`, reduced modulo `p`.
spec fn residues(a: nat, p: nat, n: nat) -> Seq<nat> {
    Seq::new(n, |i: int| (a * (i + 1) as nat) % p)
}

/// The product of the first `n` residues is `a^n * n!`, modulo `p`.
proof fn lemma_residues_product(a: nat, p: nat, n: nat)
    requires
        p > 0,
    ensures
        product::product(residues(a, p, n)) % p == (pow(a as int, n) * product::product(first(n)))
            % p as int,
    decreases n,
{
    reveal(pow);
    if n > 0 {
        let m = (n - 1) as nat;
        lemma_residues_product(a, p, m);
        assert(residues(a, p, n).drop_last() =~= residues(a, p, m));
        assert(first(n).drop_last() =~= first(m));
        let x = product::product(residues(a, p, m)) as int;
        let y = pow(a as int, m) * product::product(first(m));
        let z = (a * n) as int;
        lemma_mul_mod_noop_general(x, z % p as int, p as int);
        lemma_mul_mod_noop_general(y, z, p as int);
        lemma_mod_twice(z, p as int);
        assert(x * (z % p as int) % p as int == y * z % p as int);
        let u = pow(a as int, m);
        let v = product::product(first(m)) as int;
        assert((u * v) * (a * n) == (a * u) * (v * n)) by (nonlinear_arith);
        assert(residues(a, p, n).last() == z % p as int);
        assert(first(n).last() == n);
    }
}

/// A prime does not divide the product of smaller numbers.
proof fn lemma_factorial_not_divisible(p: nat, n: nat)
    requires
        arith::prime(p),
        n < p,
    ensures
        !arith::divides(p, product::product(first(n))),
    decreases n,
{
    if n == 0 {
        assert(first(0).len() == 0);
        if arith::divides(p, 1) {
            arith::lemma_divides_le(p, 1);
        }
    } else {
        let m = (n - 1) as nat;
        lemma_factorial_not_divisible(p, m);
        assert(first(n).drop_last() =~= first(m));
        assert(first(n).last() == n);
        if arith::divides(p, product::product(first(n))) {
            arith::lemma_prime_divides_product(p, product::product(first(m)), n);
            arith::lemma_divides_le(p, n);
        }
    }
}

/// Multiples of `a` by distinct numbers below `p` have distinct residues.
proof fn lemma_residues_distinct(a: nat, p: nat, i: nat, j: nat)
    requires
        arith::prime(p),
        !arith::divides(p, a),
        i < j < p,
    ensures
        (a * i) % p != (a * j) % p,
{
    if (a * i) % p == (a * j) % p {
        lemma_mod_equivalence((a * j) as int, (a * i) as int, p as int);
        lemma_mul_is_distributive_sub(a as int, j as int, i as int);
        let k = (j - i) as nat;
        assert(a * k >= 0) by (nonlinear_arith)
            requires
                a >= 0,
                k >= 0,
        ;
        assert(arith::divides(p, a * k));
        arith::lemma_prime_divides_product(p, a, k);
        arith::lemma_divides_le(p, k);
    }
}

/// The residues of `a, 2a, .., (p-1)a` are `1, .., p-1` in some order.
proof fn lemma_residues_permute(a: nat, p: nat)
    requires
        arith::prime(p),
        !arith::divides(p, a),
    ensures
        residues(a, p, (p - 1) as nat).to_multiset() == first((p - 1) as nat).to_multiset(),
{
    let n = (p - 1) as nat;
    let s = residues(a, p, n);
    let t = first(n);
    assert(s.no_duplicates()) by {
        assert forall|i: int, j: int| 0 <= i < s.len() && 0 <= j < s.len() && i != j implies s[i]
            != s[j] by {
            if i < j {
                lemma_residues_distinct(a, p, (i + 1) as nat, (j + 1) as nat);
            } else {
                lemma_residues_distinct(a, p, (j + 1) as nat, (i + 1) as nat);
            }
        }
    }
    assert(t.no_duplicates());
    assert forall|x: nat| s.to_set().contains(x) implies t.to_set().contains(x) by {
        let i = choose|i: int| 0 <= i < s.len() && s[i] == x;
        lemma_residues_distinct(a, p, 0, (i + 1) as nat);
        assert(a * 0 == 0);
        lemma_small_mod(0, p);
        assert(0 < x < p);
        assert(t[x - 1] == x);
    }
    s.unique_seq_to_set();
    t.unique_seq_to_set();
    s.lemma_cardinality_of_set();
    t.lemma_cardinality_of_set();
    lemma_subset_equality(s.to_set(), t.to_set());
    s.lemma_multiset_has_no_duplicates();
    t.lemma_multiset_has_no_duplicates();
    broadcast use vstd::seq_lib::group_to_multiset_ensures;

    assert forall|x: nat| s.to_multiset().count(x) == t.to_multiset().count(x) by {
        assert(s.to_set().contains(x) == t.to_set().contains(x));
        assert(s.contains(x) == t.contains(x));
    }
    assert(s.to_multiset() =~= t.to_multiset());
}

/// Fermat's little theorem.
pub proof fn lemma_fermat(a: nat, p: nat)
    requires
        arith::prime(p),
        !arith::divides(p, a),
    ensures
        pow(a as int, (p - 1) as nat) % p as int == 1,
{
    let n = (p - 1) as nat;
    let f = product::product(first(n));
    let w = pow(a as int, n);
    lemma_residues_permute(a, p);
    product::lemma_product_permutation(residues(a, p, n), first(n));
    lemma_residues_product(a, p, n);
    lemma_factorial_not_divisible(p, n);
    arith::lemma_divides_refl(p);
    assert(a > 0);
    lemma_pow_positive(a as int, n);
    // (w - 1) * f is a multiple of p.
    lemma_mod_equivalence(w * f, f as int, p as int);
    assert(w * f - f == (w - 1) * f) by (nonlinear_arith);
    let k = (w - 1) as nat;
    arith::lemma_prime_divides_product(p, k, f);
    lemma_mod_equivalence(w, 1, p as int);
    lemma_small_mod(1, p);
}

/// Modulo a prime, only one and minus one square to one.
pub proof fn lemma_square_root_of_one(x: nat, p: nat)
    requires
        arith::prime(p),
        (x * x) % p == 1,
    ensures
        x % p == 1 || x % p == p - 1,
{
    lemma_small_mod(1, p);
    lemma_small_mod((p - 1) as nat, p);
    lemma_mod_equivalence((x * x) as int, 1, p as int);
    if x == 0 {
        assert(x * x == 0);
        lemma_small_mod(0, p);
    }
    let y = (x - 1) as nat;
    assert(x * x - 1 == y * (x + 1)) by (nonlinear_arith)
        requires
            y == x - 1,
    ;
    arith::lemma_prime_divides_product(p, y, x + 1);
    if arith::divides(p, y) {
        lemma_mod_equivalence(x as int, 1, p as int);
    } else {
        lemma_mod_add_multiples_vanish((x + 1) - p as int, p as int);
        lemma_mod_equivalence(x as int, p - 1, p as int);
    }
}

} // verus!
