//! The primality of a `u64`.

use crate::arith;
use crate::certificate;
use crate::certificate::certify;
use crate::factor;
use crate::factor::{append_factors, find_least_divisor};
use crate::miller_rabin;
use crate::miller_rabin::miller_rabin;
use crate::product;
use vstd::prelude::*;

verus! {

/// Whether `n` is prime.
///
/// The Miller-Rabin test decides. What it accepts is confirmed: below the square
/// of 41 by the divisions that the test makes, above by Pocklington's criterion,
/// and, where no certificate is found, by trial division.
pub fn is_prime(n: u64) -> (res: bool)
    ensures
        res == arith::prime(n as nat),
    decreases n, 0nat,
{
    let ghost nn = n as nat;
    proof {
        if arith::prime(nn) {
            miller_rabin::law_primes_pass(nn);
        }
    }
    if !miller_rabin(n) {
        return false;
    }
    if n < 1681 {
        proof {
            miller_rabin::law_exact_below_1681(nn);
        }
        return true;
    }
    let ghost m = (n - 1) as nat;
    let mut factors: Vec<u64> = Vec::new();
    append_factors(n - 1, &mut factors);
    proof {
        let f = factor::factors_of(m);
        assert(factor::as_nats(Seq::<u64>::empty()) + f =~= f);
        factor::law_factors_product(m);
        assert forall|i: int| 0 <= i < factors@.len() implies #[trigger] factors@[i] >= 1
            && arith::divides(factors@[i] as nat, m) by {
            assert(f[i] == factors@[i] as nat);
            factor::law_factors_prime(m, i);
            product::lemma_factor_divides_product(f, i);
        }
    }
    if certify(n, &factors) {
        proof {
            let f = factor::factors_of(m);
            assert forall|q: nat| #[trigger] arith::prime(q) && arith::divides(q, m) implies
                certificate::certified(nn, q) by {
                assert forall|i: int| 0 <= i < f.len() implies arith::prime(#[trigger] f[i]) by {
                    factor::law_factors_prime(m, i);
                }
                let i = factor::lemma_prime_in_product(q, f);
                assert(factors@[i] as nat == f[i]);
            }
            certificate::law_pocklington(nn);
        }
        return true;
    }
    let d = find_least_divisor(n);
    proof {
        arith::lemma_divides_refl(nn);
        if d == n {
            assert forall|e: nat| #[trigger] arith::divides(e, nn) implies e == 1 || e == nn by {
                arith::lemma_divides_le(e, nn);
            }
        }
    }
    d == n
}

} // verus!
