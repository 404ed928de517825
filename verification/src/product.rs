//! Products of finite sequences of natural numbers.

use crate::arith;
use vstd::arithmetic::mul::*;
use vstd::prelude::*;
use vstd::seq_lib::*;

verus! {

/// The product of the numbers of a sequence; one for the empty sequence.
pub open spec fn product(s: Seq<nat>) -> nat
    decreases s.len(),
{
    if s.len() == 0 {
        1
    } else {
        product(s.drop_last()) * s.last()
    }
}

pub proof fn lemma_product_push(s: Seq<nat>, x: nat)
    ensures
        product(s.push(x)) == product(s) * x,
{
    assert(s.push(x).drop_last() =~= s);
}

pub proof fn lemma_product_single(x: nat)
    ensures
        product(seq![x]) == x,
{
    let e = Seq::<nat>::empty();
    lemma_product_push(e, x);
    assert(e.push(x) =~= seq![x]);
    assert(product(e) * x == x) by (nonlinear_arith)
        requires
            product(e) == 1,
    ;
}

pub proof fn lemma_product_concat(s: Seq<nat>, t: Seq<nat>)
    ensures
        product(s + t) == product(s) * product(t),
    decreases t.len(),
{
    if t.len() == 0 {
        assert(s + t =~= s);
        assert(product(s) * 1 == product(s));
    } else {
        lemma_product_concat(s, t.drop_last());
        assert((s + t).drop_last() =~= s + t.drop_last());
        lemma_mul_is_associative(
            product(s) as int,
            product(t.drop_last()) as int,
            t.last() as int,
        );
    }
}

proof fn lemma_product_fold(s: Seq<nat>, v: nat)
    ensures
        s.fold_right(|x: nat, y: nat| x * y, v) == product(s) * v,
    decreases s.len(),
{
    let f = |x: nat, y: nat| x * y;
    if s.len() > 0 {
        lemma_product_fold(s.drop_last(), s.last() * v);
        lemma_mul_is_associative(product(s.drop_last()) as int, s.last() as int, v as int);
        assert(s.fold_right(f, v) == s.drop_last().fold_right(f, f(s.last(), v)));
    } else {
        assert(1 * v == v);
    }
}

/// The product does not depend on the order of the factors.
pub proof fn lemma_product_permutation(s: Seq<nat>, t: Seq<nat>)
    requires
        s.to_multiset() == t.to_multiset(),
    ensures
        product(s) == product(t),
{
    let f = |x: nat, y: nat| x * y;
    assert(commutative_foldr(f)) by {
        assert forall|x: nat, y: nat, v: nat| #[trigger] f(x, f(y, v)) == f(y, f(x, v)) by {
            assert(x * (y * v) == y * (x * v)) by (nonlinear_arith);
        }
    }
    lemma_fold_right_permutation(s, t, f, 1nat);
    lemma_product_fold(s, 1);
    lemma_product_fold(t, 1);
}

/// A product is divisible by each of its factors.
pub proof fn lemma_factor_divides_product(s: Seq<nat>, i: int)
    requires
        0 <= i < s.len(),
    ensures
        arith::divides(s[i], product(s)),
    decreases s.len(),
{
    arith::lemma_divides_multiple(s.last(), product(s.drop_last()));
    if i < s.len() - 1 {
        lemma_factor_divides_product(s.drop_last(), i);
        arith::lemma_divides_mul(s[i], product(s.drop_last()), s.last());
    }
}

/// Law: no factors have the product one, a single factor has itself, and the product of
/// two sequences together is that of their products.
pub proof fn law_product(s: Seq<nat>, t: Seq<nat>, x: nat)
    ensures
        product(Seq::empty()) == 1,
        product(seq![x]) == x,
        product(s + t) == product(s) * product(t),
{
    lemma_product_single(x);
    lemma_product_concat(s, t);
}

} // verus!
