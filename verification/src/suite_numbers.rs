//! What the numbers of a run are made of.

use crate::arith;
use crate::factor;
use crate::fermat;
use crate::known_primes;
use crate::product;
use crate::suite;
use crate::suite::TestCase;
use vstd::arithmetic::div_mod::*;
use vstd::arithmetic::mul::*;
use vstd::arithmetic::power::*;
use vstd::prelude::*;
use vstd::string::*;

verus! {

/// The factors of `n` are those of `s`, but for the order.
pub open spec fn factors_are(n: nat, s: Seq<nat>) -> bool {
    factor::factors_of(n).to_multiset() == s.to_multiset()
}

/// `k` times `p`.
pub open spec fn repeated(p: nat, k: nat) -> Seq<nat> {
    Seq::new(k, |i: int| p)
}

/// `n` is the product of the primes of `s`.
spec fn made_of(n: nat, s: Seq<nat>) -> bool {
    &&& n >= 1
    &&& product::product(s) == n
    &&& forall|i: int| 0 <= i < s.len() ==> arith::prime(#[trigger] s[i])
}

proof fn lemma_one(p: nat)
    requires
        arith::prime(p),
    ensures
        made_of(p, repeated(p, 1)),
{
    product::lemma_product_single(p);
    assert(repeated(p, 1) =~= seq![p]);
}

proof fn lemma_join(a: nat, s: Seq<nat>, b: nat, t: Seq<nat>)
    requires
        made_of(a, s),
        made_of(b, t),
    ensures
        made_of(a * b, s + t),
{
    product::lemma_product_concat(s, t);
    assert(a * b >= 1) by (nonlinear_arith)
        requires
            a >= 1,
            b >= 1,
    ;
}

proof fn lemma_repeat(p: nat, i: nat, a: nat, j: nat, b: nat)
    requires
        made_of(a, repeated(p, i)),
        made_of(b, repeated(p, j)),
    ensures
        made_of(a * b, repeated(p, i + j)),
{
    lemma_join(a, repeated(p, i), b, repeated(p, j));
    assert(repeated(p, i) + repeated(p, j) =~= repeated(p, i + j));
}

proof fn lemma_factors_are(n: nat, s: Seq<nat>)
    requires
        made_of(n, s),
    ensures
        factors_are(n, s),
{
    factor::law_factors_complete(n, s);
}

proof fn lemma_large_semiprimes_0()
    ensures
        factors_are(9_999_996_000_000_319, seq![99_999_971nat, 99_999_989]),
{
    known_primes::lemma_small_primes();
    known_primes::lemma_known_primes();
    lemma_one(99_999_971);
    lemma_one(99_999_989);
    let s = repeated(99_999_971, 1);
    lemma_join(99_999_971, s, 99_999_989, repeated(99_999_989, 1));
    let s = s + repeated(99_999_989, 1);
    assert(s =~= seq![99_999_971nat, 99_999_989]);
    lemma_factors_are(9_999_996_000_000_319, s);
}

proof fn lemma_large_semiprimes_1()
    ensures
        factors_are(999_999_830_000_006_741, seq![999_999_937nat, 999_999_893]),
{
    known_primes::lemma_small_primes();
    known_primes::lemma_known_primes();
    lemma_one(999_999_937);
    lemma_one(999_999_893);
    let s = repeated(999_999_937, 1);
    lemma_join(999_999_937, s, 999_999_893, repeated(999_999_893, 1));
    let s = s + repeated(999_999_893, 1);
    assert(s =~= seq![999_999_937nat, 999_999_893]);
    lemma_factors_are(999_999_830_000_006_741, s);
}

proof fn lemma_large_semiprimes_2()
    ensures
        factors_are(999_999_634_000_029_133, seq![999_999_751nat, 999_999_883]),
{
    known_primes::lemma_small_primes();
    known_primes::lemma_known_primes();
    lemma_one(999_999_751);
    lemma_one(999_999_883);
    let s = repeated(999_999_751, 1);
    lemma_join(999_999_751, s, 999_999_883, repeated(999_999_883, 1));
    let s = s + repeated(999_999_883, 1);
    assert(s =~= seq![999_999_751nat, 999_999_883]);
    lemma_factors_are(999_999_634_000_029_133, s);
}

proof fn lemma_large_semiprimes_3()
    ensures
        factors_are(99_999_982_700_000_693, seq![99_999_989nat, 999_999_937]),
{
    known_primes::lemma_small_primes();
    known_primes::lemma_known_primes();
    lemma_one(99_999_989);
    lemma_one(999_999_937);
    let s = repeated(99_999_989, 1);
    lemma_join(99_999_989, s, 999_999_937, repeated(999_999_937, 1));
    let s = s + repeated(999_999_937, 1);
    assert(s =~= seq![99_999_989nat, 999_999_937]);
    lemma_factors_are(99_999_982_700_000_693, s);
}

proof fn lemma_large_semiprimes_4()
    ensures
        factors_are(9_999_997_800_000_121, seq![99_999_989nat, 99_999_989]),
{
    known_primes::lemma_small_primes();
    known_primes::lemma_known_primes();
    lemma_one(99_999_989);
    lemma_repeat(99_999_989, 1, 99_999_989, 1, 99_999_989);
    let s = repeated(99_999_989, 2);
    assert(s =~= seq![99_999_989nat, 99_999_989]);
    lemma_factors_are(9_999_997_800_000_121, s);
}

proof fn lemma_large_semiprimes_5()
    ensures
        factors_are(18_446_743_979_220_271_189, seq![4_294_967_291nat, 4_294_967_279]),
{
    known_primes::lemma_small_primes();
    known_primes::lemma_known_primes();
    lemma_one(4_294_967_291);
    lemma_one(4_294_967_279);
    let s = repeated(4_294_967_291, 1);
    lemma_join(4_294_967_291, s, 4_294_967_279, repeated(4_294_967_279, 1));
    let s = s + repeated(4_294_967_279, 1);
    assert(s =~= seq![4_294_967_291nat, 4_294_967_279]);
    lemma_factors_are(18_446_743_979_220_271_189, s);
}

/// Law: the prime factors of the large semiprimes, two of each.
pub proof fn law_large_semiprimes_factors(cases: Seq<TestCase>)
    requires
        suite::large_semiprimes_cases(cases),
    ensures
        factors_are(cases[0].number as nat, seq![99_999_971nat, 99_999_989]),
        factors_are(cases[1].number as nat, seq![999_999_937nat, 999_999_893]),
        factors_are(cases[2].number as nat, seq![999_999_751nat, 999_999_883]),
        factors_are(cases[3].number as nat, seq![99_999_989nat, 999_999_937]),
        factors_are(cases[4].number as nat, seq![99_999_989nat, 99_999_989]),
        factors_are(cases[5].number as nat, seq![4_294_967_291nat, 4_294_967_279]),
{
    suite::lemma_powers();
    lemma_large_semiprimes_0();
    lemma_large_semiprimes_1();
    lemma_large_semiprimes_2();
    lemma_large_semiprimes_3();
    lemma_large_semiprimes_4();
    lemma_large_semiprimes_5();
}

proof fn lemma_highly_composite_0()
    ensures
        factors_are(1_099_511_627_776, repeated(2, 40)),
{
    known_primes::lemma_small_primes();
    known_primes::lemma_known_primes();
    lemma_one(2);
    lemma_repeat(2, 1, 2, 1, 2);
    lemma_repeat(2, 2, 4, 2, 4);
    lemma_repeat(2, 4, 16, 4, 16);
    lemma_repeat(2, 8, 256, 8, 256);
    lemma_repeat(2, 16, 65_536, 16, 65_536);
    lemma_repeat(2, 32, 4_294_967_296, 8, 256);
    let s = repeated(2, 40);
    assert(s =~= repeated(2, 40));
    lemma_factors_are(1_099_511_627_776, s);
}

proof fn lemma_highly_composite_1()
    ensures
        factors_are(1_125_899_906_842_624, repeated(2, 50)),
{
    known_primes::lemma_small_primes();
    known_primes::lemma_known_primes();
    lemma_one(2);
    lemma_repeat(2, 1, 2, 1, 2);
    lemma_repeat(2, 2, 4, 2, 4);
    lemma_repeat(2, 4, 16, 4, 16);
    lemma_repeat(2, 8, 256, 8, 256);
    lemma_repeat(2, 16, 65_536, 16, 65_536);
    lemma_repeat(2, 16, 65_536, 2, 4);
    lemma_repeat(2, 32, 4_294_967_296, 18, 262_144);
    let s = repeated(2, 50);
    assert(s =~= repeated(2, 50));
    lemma_factors_are(1_125_899_906_842_624, s);
}

proof fn lemma_highly_composite_2()
    ensures
        factors_are(9_223_372_036_854_775_808, repeated(2, 63)),
{
    known_primes::lemma_small_primes();
    known_primes::lemma_known_primes();
    lemma_one(2);
    lemma_repeat(2, 1, 2, 1, 2);
    lemma_repeat(2, 2, 4, 2, 4);
    lemma_repeat(2, 4, 16, 4, 16);
    lemma_repeat(2, 8, 256, 8, 256);
    lemma_repeat(2, 16, 65_536, 16, 65_536);
    lemma_repeat(2, 2, 4, 1, 2);
    lemma_repeat(2, 4, 16, 3, 8);
    lemma_repeat(2, 8, 256, 7, 128);
    lemma_repeat(2, 16, 65_536, 15, 32_768);
    lemma_repeat(2, 32, 4_294_967_296, 31, 2_147_483_648);
    let s = repeated(2, 63);
    assert(s =~= repeated(2, 63));
    lemma_factors_are(9_223_372_036_854_775_808, s);
}

proof fn lemma_highly_composite_3()
    ensures
        factors_are(2_432_902_008_176_640_000, repeated(2, 18) + repeated(3, 8) + seq![5nat, 5, 5, 5, 7, 7, 11, 13, 17, 19]),
{
    known_primes::lemma_small_primes();
    known_primes::lemma_known_primes();
    lemma_one(2);
    lemma_repeat(2, 1, 2, 1, 2);
    lemma_repeat(2, 2, 4, 2, 4);
    lemma_repeat(2, 4, 16, 4, 16);
    lemma_repeat(2, 8, 256, 8, 256);
    lemma_repeat(2, 16, 65_536, 2, 4);
    lemma_one(3);
    lemma_repeat(3, 1, 3, 1, 3);
    lemma_repeat(3, 2, 9, 2, 9);
    lemma_repeat(3, 4, 81, 4, 81);
    lemma_one(5);
    lemma_repeat(5, 1, 5, 1, 5);
    lemma_repeat(5, 2, 25, 2, 25);
    lemma_one(7);
    lemma_repeat(7, 1, 7, 1, 7);
    lemma_one(11);
    lemma_one(13);
    lemma_one(17);
    lemma_one(19);
    let s = repeated(2, 18);
    lemma_join(262_144, s, 6_561, repeated(3, 8));
    let s = s + repeated(3, 8);
    lemma_join(1_719_926_784, s, 625, repeated(5, 4));
    let s = s + repeated(5, 4);
    lemma_join(1_074_954_240_000, s, 49, repeated(7, 2));
    let s = s + repeated(7, 2);
    lemma_join(52_672_757_760_000, s, 11, repeated(11, 1));
    let s = s + repeated(11, 1);
    lemma_join(579_400_335_360_000, s, 13, repeated(13, 1));
    let s = s + repeated(13, 1);
    lemma_join(7_532_204_359_680_000, s, 17, repeated(17, 1));
    let s = s + repeated(17, 1);
    lemma_join(128_047_474_114_560_000, s, 19, repeated(19, 1));
    let s = s + repeated(19, 1);
    assert(s =~= repeated(2, 18) + repeated(3, 8) + seq![5nat, 5, 5, 5, 7, 7, 11, 13, 17, 19]);
    lemma_factors_are(2_432_902_008_176_640_000, s);
}

proof fn lemma_highly_composite_4()
    ensures
        factors_are(9_261_000, seq![2nat, 2, 2, 3, 3, 3, 5, 5, 5, 7, 7, 7]),
{
    known_primes::lemma_small_primes();
    known_primes::lemma_known_primes();
    lemma_one(2);
    lemma_repeat(2, 1, 2, 1, 2);
    lemma_repeat(2, 2, 4, 1, 2);
    lemma_one(3);
    lemma_repeat(3, 1, 3, 1, 3);
    lemma_repeat(3, 2, 9, 1, 3);
    lemma_one(5);
    lemma_repeat(5, 1, 5, 1, 5);
    lemma_repeat(5, 2, 25, 1, 5);
    lemma_one(7);
    lemma_repeat(7, 1, 7, 1, 7);
    lemma_repeat(7, 2, 49, 1, 7);
    let s = repeated(2, 3);
    lemma_join(8, s, 27, repeated(3, 3));
    let s = s + repeated(3, 3);
    lemma_join(216, s, 125, repeated(5, 3));
    let s = s + repeated(5, 3);
    lemma_join(27_000, s, 343, repeated(7, 3));
    let s = s + repeated(7, 3);
    assert(s =~= seq![2nat, 2, 2, 3, 3, 3, 5, 5, 5, 7, 7, 7]);
    lemma_factors_are(9_261_000, s);
}

proof fn lemma_highly_composite_5()
    ensures
        factors_are(720_720, seq![2nat, 2, 2, 2, 3, 3, 5, 7, 11, 13]),
{
    known_primes::lemma_small_primes();
    known_primes::lemma_known_primes();
    lemma_one(2);
    lemma_repeat(2, 1, 2, 1, 2);
    lemma_repeat(2, 2, 4, 2, 4);
    lemma_one(3);
    lemma_repeat(3, 1, 3, 1, 3);
    lemma_one(5);
    lemma_one(7);
    lemma_one(11);
    lemma_one(13);
    let s = repeated(2, 4);
    lemma_join(16, s, 9, repeated(3, 2));
    let s = s + repeated(3, 2);
    lemma_join(144, s, 5, repeated(5, 1));
    let s = s + repeated(5, 1);
    lemma_join(720, s, 7, repeated(7, 1));
    let s = s + repeated(7, 1);
    lemma_join(5_040, s, 11, repeated(11, 1));
    let s = s + repeated(11, 1);
    lemma_join(55_440, s, 13, repeated(13, 1));
    let s = s + repeated(13, 1);
    assert(s =~= seq![2nat, 2, 2, 2, 3, 3, 5, 7, 11, 13]);
    lemma_factors_are(720_720, s);
}

proof fn lemma_highly_composite_6()
    ensures
        factors_are(614_889_782_588_491_410, seq![2nat, 3, 5, 7, 11, 13, 17, 19, 23, 29, 31, 37, 41, 43, 47]),
{
    known_primes::lemma_small_primes();
    known_primes::lemma_known_primes();
    lemma_one(2);
    lemma_one(3);
    lemma_one(5);
    lemma_one(7);
    lemma_one(11);
    lemma_one(13);
    lemma_one(17);
    lemma_one(19);
    lemma_one(23);
    lemma_one(29);
    lemma_one(31);
    lemma_one(37);
    lemma_one(41);
    lemma_one(43);
    lemma_one(47);
    let s = repeated(2, 1);
    lemma_join(2, s, 3, repeated(3, 1));
    let s = s + repeated(3, 1);
    lemma_join(6, s, 5, repeated(5, 1));
    let s = s + repeated(5, 1);
    lemma_join(30, s, 7, repeated(7, 1));
    let s = s + repeated(7, 1);
    lemma_join(210, s, 11, repeated(11, 1));
    let s = s + repeated(11, 1);
    lemma_join(2_310, s, 13, repeated(13, 1));
    let s = s + repeated(13, 1);
    lemma_join(30_030, s, 17, repeated(17, 1));
    let s = s + repeated(17, 1);
    lemma_join(510_510, s, 19, repeated(19, 1));
    let s = s + repeated(19, 1);
    lemma_join(9_699_690, s, 23, repeated(23, 1));
    let s = s + repeated(23, 1);
    lemma_join(223_092_870, s, 29, repeated(29, 1));
    let s = s + repeated(29, 1);
    lemma_join(6_469_693_230, s, 31, repeated(31, 1));
    let s = s + repeated(31, 1);
    lemma_join(200_560_490_130, s, 37, repeated(37, 1));
    let s = s + repeated(37, 1);
    lemma_join(7_420_738_134_810, s, 41, repeated(41, 1));
    let s = s + repeated(41, 1);
    lemma_join(304_250_263_527_210, s, 43, repeated(43, 1));
    let s = s + repeated(43, 1);
    lemma_join(13_082_761_331_670_030, s, 47, repeated(47, 1));
    let s = s + repeated(47, 1);
    assert(s =~= seq![2nat, 3, 5, 7, 11, 13, 17, 19, 23, 29, 31, 37, 41, 43, 47]);
    lemma_factors_are(614_889_782_588_491_410, s);
}

proof fn lemma_highly_composite_7()
    ensures
        factors_are(21_237_655_928_832, repeated(2, 20) + repeated(3, 10) + seq![7nat, 7, 7]),
{
    known_primes::lemma_small_primes();
    known_primes::lemma_known_primes();
    lemma_one(2);
    lemma_repeat(2, 1, 2, 1, 2);
    lemma_repeat(2, 2, 4, 2, 4);
    lemma_repeat(2, 4, 16, 4, 16);
    lemma_repeat(2, 8, 256, 8, 256);
    lemma_repeat(2, 16, 65_536, 4, 16);
    lemma_one(3);
    lemma_repeat(3, 1, 3, 1, 3);
    lemma_repeat(3, 2, 9, 2, 9);
    lemma_repeat(3, 4, 81, 4, 81);
    lemma_repeat(3, 8, 6_561, 2, 9);
    lemma_one(7);
    lemma_repeat(7, 1, 7, 1, 7);
    lemma_repeat(7, 2, 49, 1, 7);
    let s = repeated(2, 20);
    lemma_join(1_048_576, s, 59_049, repeated(3, 10));
    let s = s + repeated(3, 10);
    lemma_join(61_917_364_224, s, 343, repeated(7, 3));
    let s = s + repeated(7, 3);
    assert(s =~= repeated(2, 20) + repeated(3, 10) + seq![7nat, 7, 7]);
    lemma_factors_are(21_237_655_928_832, s);
}

/// Law: the prime factors of the highly composite numbers: so many twos, those of a
/// factorial, cubes of the first primes, and the first primes themselves.
pub proof fn law_highly_composite_factors(cases: Seq<TestCase>)
    requires
        suite::highly_composite_cases(cases),
    ensures
        factors_are(cases[0].number as nat, repeated(2, 40)),
        factors_are(cases[1].number as nat, repeated(2, 50)),
        factors_are(cases[2].number as nat, repeated(2, 63)),
        factors_are(cases[3].number as nat, repeated(2, 18) + repeated(3, 8) + seq![5nat, 5, 5, 5, 7, 7, 11, 13, 17, 19]),
        factors_are(cases[4].number as nat, seq![2nat, 2, 2, 3, 3, 3, 5, 5, 5, 7, 7, 7]),
        factors_are(cases[5].number as nat, seq![2nat, 2, 2, 2, 3, 3, 5, 7, 11, 13]),
        factors_are(cases[6].number as nat, seq![2nat, 3, 5, 7, 11, 13, 17, 19, 23, 29, 31, 37, 41, 43, 47]),
        factors_are(cases[7].number as nat, repeated(2, 20) + repeated(3, 10) + seq![7nat, 7, 7]),
{
    suite::lemma_powers();
    lemma_highly_composite_0();
    lemma_highly_composite_1();
    lemma_highly_composite_2();
    lemma_highly_composite_3();
    lemma_highly_composite_4();
    lemma_highly_composite_5();
    lemma_highly_composite_6();
    lemma_highly_composite_7();
}

proof fn lemma_primes_0()
    ensures
        factors_are(9_999_999_999_999_937, seq![9_999_999_999_999_937nat]),
{
    known_primes::lemma_small_primes();
    known_primes::lemma_known_primes();
    lemma_one(9_999_999_999_999_937);
    let s = repeated(9_999_999_999_999_937, 1);
    assert(s =~= seq![9_999_999_999_999_937nat]);
    lemma_factors_are(9_999_999_999_999_937, s);
}

proof fn lemma_primes_1()
    ensures
        factors_are(999_999_999_999_989, seq![999_999_999_999_989nat]),
{
    known_primes::lemma_small_primes();
    known_primes::lemma_known_primes();
    lemma_one(999_999_999_999_989);
    let s = repeated(999_999_999_999_989, 1);
    assert(s =~= seq![999_999_999_999_989nat]);
    lemma_factors_are(999_999_999_999_989, s);
}

proof fn lemma_primes_2()
    ensures
        factors_are(2_147_483_647, seq![2_147_483_647nat]),
{
    known_primes::lemma_small_primes();
    known_primes::lemma_known_primes();
    lemma_one(2_147_483_647);
    let s = repeated(2_147_483_647, 1);
    assert(s =~= seq![2_147_483_647nat]);
    lemma_factors_are(2_147_483_647, s);
}

proof fn lemma_primes_3()
    ensures
        factors_are(1_000_000_000_039, seq![1_000_000_000_039nat]),
{
    known_primes::lemma_small_primes();
    known_primes::lemma_known_primes();
    lemma_one(1_000_000_000_039);
    let s = repeated(1_000_000_000_039, 1);
    assert(s =~= seq![1_000_000_000_039nat]);
    lemma_factors_are(1_000_000_000_039, s);
}

proof fn lemma_primes_4()
    ensures
        factors_are(999_999_999_999_999_877, seq![999_999_999_999_999_877nat]),
{
    known_primes::lemma_small_primes();
    known_primes::lemma_known_primes();
    lemma_one(999_999_999_999_999_877);
    let s = repeated(999_999_999_999_999_877, 1);
    assert(s =~= seq![999_999_999_999_999_877nat]);
    lemma_factors_are(999_999_999_999_999_877, s);
}

proof fn lemma_primes_5()
    ensures
        factors_are(999_999_999_999_999_989, seq![999_999_999_999_999_989nat]),
{
    known_primes::lemma_small_primes();
    known_primes::lemma_known_primes();
    lemma_one(999_999_999_999_999_989);
    let s = repeated(999_999_999_999_999_989, 1);
    assert(s =~= seq![999_999_999_999_999_989nat]);
    lemma_factors_are(999_999_999_999_999_989, s);
}

/// Law: the numbers of the prime category have themselves as only factor.
pub proof fn law_primes_factors(cases: Seq<TestCase>)
    requires
        suite::primes_cases(cases),
    ensures
        factors_are(cases[0].number as nat, seq![9_999_999_999_999_937nat]),
        factors_are(cases[1].number as nat, seq![999_999_999_999_989nat]),
        factors_are(cases[2].number as nat, seq![2_147_483_647nat]),
        factors_are(cases[3].number as nat, seq![1_000_000_000_039nat]),
        factors_are(cases[4].number as nat, seq![999_999_999_999_999_877nat]),
        factors_are(cases[5].number as nat, seq![999_999_999_999_999_989nat]),
{
    suite::lemma_powers();
    lemma_primes_0();
    lemma_primes_1();
    lemma_primes_2();
    lemma_primes_3();
    lemma_primes_4();
    lemma_primes_5();
}

proof fn lemma_stress_mixed_0()
    ensures
        factors_are(969_806_009_603, seq![97nat, 99_989, 99_991]),
{
    known_primes::lemma_small_primes();
    known_primes::lemma_known_primes();
    lemma_one(97);
    lemma_one(99_989);
    lemma_one(99_991);
    let s = repeated(97, 1);
    lemma_join(97, s, 99_989, repeated(99_989, 1));
    let s = s + repeated(99_989, 1);
    lemma_join(9_698_933, s, 99_991, repeated(99_991, 1));
    let s = s + repeated(99_991, 1);
    assert(s =~= seq![97nat, 99_989, 99_991]);
    lemma_factors_are(969_806_009_603, s);
}

proof fn lemma_stress_mixed_1()
    ensures
        factors_are(28_999_999_999_999_681, seq![29nat, 999_999_999_999_989]),
{
    known_primes::lemma_small_primes();
    known_primes::lemma_known_primes();
    lemma_one(29);
    lemma_one(999_999_999_999_989);
    let s = repeated(29, 1);
    lemma_join(29, s, 999_999_999_999_989, repeated(999_999_999_999_989, 1));
    let s = s + repeated(999_999_999_999_989, 1);
    assert(s =~= seq![29nat, 999_999_999_999_989]);
    lemma_factors_are(28_999_999_999_999_681, s);
}

proof fn lemma_stress_mixed_2()
    ensures
        factors_are(11_398_895_185_373_143, repeated(7, 19)),
{
    known_primes::lemma_small_primes();
    known_primes::lemma_known_primes();
    lemma_one(7);
    lemma_repeat(7, 1, 7, 1, 7);
    lemma_repeat(7, 2, 49, 2, 49);
    lemma_repeat(7, 4, 2_401, 4, 2_401);
    lemma_repeat(7, 8, 5_764_801, 8, 5_764_801);
    lemma_repeat(7, 2, 49, 1, 7);
    lemma_repeat(7, 16, 33_232_930_569_601, 3, 343);
    let s = repeated(7, 19);
    assert(s =~= repeated(7, 19));
    lemma_factors_are(11_398_895_185_373_143, s);
}

proof fn lemma_stress_mixed_3()
    ensures
        factors_are(9_999_990_000_002_419, seq![99_999_959nat, 99_999_941]),
{
    known_primes::lemma_small_primes();
    known_primes::lemma_known_primes();
    lemma_one(99_999_959);
    lemma_one(99_999_941);
    let s = repeated(99_999_959, 1);
    lemma_join(99_999_959, s, 99_999_941, repeated(99_999_941, 1));
    let s = s + repeated(99_999_941, 1);
    assert(s =~= seq![99_999_959nat, 99_999_941]);
    lemma_factors_are(9_999_990_000_002_419, s);
}

proof fn lemma_stress_mixed_4()
    ensures
        factors_are(4_611_686_014_132_420_609, seq![2_147_483_647nat, 2_147_483_647]),
{
    known_primes::lemma_small_primes();
    known_primes::lemma_known_primes();
    lemma_one(2_147_483_647);
    lemma_repeat(2_147_483_647, 1, 2_147_483_647, 1, 2_147_483_647);
    let s = repeated(2_147_483_647, 2);
    assert(s =~= seq![2_147_483_647nat, 2_147_483_647]);
    lemma_factors_are(4_611_686_014_132_420_609, s);
}

proof fn lemma_stress_mixed_5()
    ensures
        factors_are(701_408_733, seq![3nat, 43, 89, 199, 307]),
{
    known_primes::lemma_small_primes();
    known_primes::lemma_known_primes();
    lemma_one(3);
    lemma_one(43);
    lemma_one(89);
    lemma_one(199);
    lemma_one(307);
    let s = repeated(3, 1);
    lemma_join(3, s, 43, repeated(43, 1));
    let s = s + repeated(43, 1);
    lemma_join(129, s, 89, repeated(89, 1));
    let s = s + repeated(89, 1);
    lemma_join(11_481, s, 199, repeated(199, 1));
    let s = s + repeated(199, 1);
    lemma_join(2_284_719, s, 307, repeated(307, 1));
    let s = s + repeated(307, 1);
    assert(s =~= seq![3nat, 43, 89, 199, 307]);
    lemma_factors_are(701_408_733, s);
}

proof fn lemma_stress_mixed_6()
    ensures
        factors_are(1_000_000_000_000_000_000, repeated(2, 18) + repeated(5, 18)),
{
    known_primes::lemma_small_primes();
    known_primes::lemma_known_primes();
    lemma_one(2);
    lemma_repeat(2, 1, 2, 1, 2);
    lemma_repeat(2, 2, 4, 2, 4);
    lemma_repeat(2, 4, 16, 4, 16);
    lemma_repeat(2, 8, 256, 8, 256);
    lemma_repeat(2, 16, 65_536, 2, 4);
    lemma_one(5);
    lemma_repeat(5, 1, 5, 1, 5);
    lemma_repeat(5, 2, 25, 2, 25);
    lemma_repeat(5, 4, 625, 4, 625);
    lemma_repeat(5, 8, 390_625, 8, 390_625);
    lemma_repeat(5, 16, 152_587_890_625, 2, 25);
    let s = repeated(2, 18);
    lemma_join(262_144, s, 3_814_697_265_625, repeated(5, 18));
    let s = s + repeated(5, 18);
    assert(s =~= repeated(2, 18) + repeated(5, 18));
    lemma_factors_are(1_000_000_000_000_000_000, s);
}

proof fn lemma_stress_mixed_7()
    ensures
        factors_are(561, seq![3nat, 11, 17]),
{
    known_primes::lemma_small_primes();
    known_primes::lemma_known_primes();
    lemma_one(3);
    lemma_one(11);
    lemma_one(17);
    let s = repeated(3, 1);
    lemma_join(3, s, 11, repeated(11, 1));
    let s = s + repeated(11, 1);
    lemma_join(33, s, 17, repeated(17, 1));
    let s = s + repeated(17, 1);
    assert(s =~= seq![3nat, 11, 17]);
    lemma_factors_are(561, s);
}

/// Law: the prime factors of the numbers of varied difficulty.
pub proof fn law_stress_mixed_factors(cases: Seq<TestCase>)
    requires
        suite::stress_mixed_cases(cases),
    ensures
        factors_are(cases[0].number as nat, seq![97nat, 99_989, 99_991]),
        factors_are(cases[1].number as nat, seq![29nat, 999_999_999_999_989]),
        factors_are(cases[2].number as nat, repeated(7, 19)),
        factors_are(cases[3].number as nat, seq![99_999_959nat, 99_999_941]),
        factors_are(cases[4].number as nat, seq![2_147_483_647nat, 2_147_483_647]),
        factors_are(cases[5].number as nat, seq![3nat, 43, 89, 199, 307]),
        factors_are(cases[6].number as nat, repeated(2, 18) + repeated(5, 18)),
        factors_are(cases[7].number as nat, seq![3nat, 11, 17]),
{
    suite::lemma_powers();
    lemma_stress_mixed_0();
    lemma_stress_mixed_1();
    lemma_stress_mixed_2();
    lemma_stress_mixed_3();
    lemma_stress_mixed_4();
    lemma_stress_mixed_5();
    lemma_stress_mixed_6();
    lemma_stress_mixed_7();
}

proof fn lemma_edge_0()
    ensures
        factors_are(2, seq![2nat]),
{
    known_primes::lemma_small_primes();
    known_primes::lemma_known_primes();
    lemma_one(2);
    let s = repeated(2, 1);
    assert(s =~= seq![2nat]);
    lemma_factors_are(2, s);
}

proof fn lemma_edge_1()
    ensures
        factors_are(7, seq![7nat]),
{
    known_primes::lemma_small_primes();
    known_primes::lemma_known_primes();
    lemma_one(7);
    let s = repeated(7, 1);
    assert(s =~= seq![7nat]);
    lemma_factors_are(7, s);
}

proof fn lemma_edge_2()
    ensures
        factors_are(41_041, seq![7nat, 11, 13, 41]),
{
    known_primes::lemma_small_primes();
    known_primes::lemma_known_primes();
    lemma_one(7);
    lemma_one(11);
    lemma_one(13);
    lemma_one(41);
    let s = repeated(7, 1);
    lemma_join(7, s, 11, repeated(11, 1));
    let s = s + repeated(11, 1);
    lemma_join(77, s, 13, repeated(13, 1));
    let s = s + repeated(13, 1);
    lemma_join(1_001, s, 41, repeated(41, 1));
    let s = s + repeated(41, 1);
    assert(s =~= seq![7nat, 11, 13, 41]);
    lemma_factors_are(41_041, s);
}

proof fn lemma_edge_3()
    ensures
        factors_are(9_999_999_999_999_936, repeated(2, 6) + seq![3nat, 3, 3, 3, 154_321, 12_499_999]),
{
    known_primes::lemma_small_primes();
    known_primes::lemma_known_primes();
    lemma_one(2);
    lemma_repeat(2, 1, 2, 1, 2);
    lemma_repeat(2, 2, 4, 2, 4);
    lemma_repeat(2, 4, 16, 2, 4);
    lemma_one(3);
    lemma_repeat(3, 1, 3, 1, 3);
    lemma_repeat(3, 2, 9, 2, 9);
    lemma_one(154_321);
    lemma_one(12_499_999);
    let s = repeated(2, 6);
    lemma_join(64, s, 81, repeated(3, 4));
    let s = s + repeated(3, 4);
    lemma_join(5_184, s, 154_321, repeated(154_321, 1));
    let s = s + repeated(154_321, 1);
    lemma_join(800_000_064, s, 12_499_999, repeated(12_499_999, 1));
    let s = s + repeated(12_499_999, 1);
    assert(s =~= repeated(2, 6) + seq![3nat, 3, 3, 3, 154_321, 12_499_999]);
    lemma_factors_are(9_999_999_999_999_936, s);
}

proof fn lemma_edge_4()
    ensures
        factors_are(576_460_752_303_423_487, seq![179_951nat, 3_203_431_780_337]),
{
    known_primes::lemma_small_primes();
    known_primes::lemma_known_primes();
    lemma_one(179_951);
    lemma_one(3_203_431_780_337);
    let s = repeated(179_951, 1);
    lemma_join(179_951, s, 3_203_431_780_337, repeated(3_203_431_780_337, 1));
    let s = s + repeated(3_203_431_780_337, 1);
    assert(s =~= seq![179_951nat, 3_203_431_780_337]);
    lemma_factors_are(576_460_752_303_423_487, s);
}

proof fn lemma_edge_5()
    ensures
        factors_are(794_280_046_581, repeated(3, 9) + repeated(7, 9)),
{
    known_primes::lemma_small_primes();
    known_primes::lemma_known_primes();
    lemma_one(3);
    lemma_repeat(3, 1, 3, 1, 3);
    lemma_repeat(3, 2, 9, 2, 9);
    lemma_repeat(3, 4, 81, 4, 81);
    lemma_repeat(3, 8, 6_561, 1, 3);
    lemma_one(7);
    lemma_repeat(7, 1, 7, 1, 7);
    lemma_repeat(7, 2, 49, 2, 49);
    lemma_repeat(7, 4, 2_401, 4, 2_401);
    lemma_repeat(7, 8, 5_764_801, 1, 7);
    let s = repeated(3, 9);
    lemma_join(19_683, s, 40_353_607, repeated(7, 9));
    let s = s + repeated(7, 9);
    assert(s =~= repeated(3, 9) + repeated(7, 9));
    lemma_factors_are(794_280_046_581, s);
}

/// Law: the prime factors of the boundary values.
pub proof fn law_edge_factors(cases: Seq<TestCase>)
    requires
        suite::edge_cases(cases),
    ensures
        factors_are(cases[0].number as nat, seq![2nat]),
        factors_are(cases[1].number as nat, seq![7nat]),
        factors_are(cases[2].number as nat, seq![7nat, 11, 13, 41]),
        factors_are(cases[3].number as nat, repeated(2, 6) + seq![3nat, 3, 3, 3, 154_321, 12_499_999]),
        factors_are(cases[4].number as nat, seq![179_951nat, 3_203_431_780_337]),
        factors_are(cases[5].number as nat, repeated(3, 9) + repeated(7, 9)),
{
    suite::lemma_powers();
    lemma_edge_0();
    lemma_edge_1();
    lemma_edge_2();
    lemma_edge_3();
    lemma_edge_4();
    lemma_edge_5();
}

/// The factors of `n` are as many as those of `s`, and each of them is one of `s`.
proof fn lemma_factors_in(n: nat, s: Seq<nat>)
    requires
        factors_are(n, s),
    ensures
        factor::factors_of(n).len() == s.len(),
        forall|i: int| 0 <= i < s.len() ==> s.contains(#[trigger] factor::factors_of(n)[i]),
{
    broadcast use vstd::seq_lib::group_to_multiset_ensures;

    let f = factor::factors_of(n);
    assert(f.to_multiset().len() == f.len() && s.to_multiset().len() == s.len());
    assert forall|i: int| 0 <= i < f.len() implies s.contains(#[trigger] f[i]) by {
        assert(f.contains(f[i]));
        assert(f.to_multiset().count(f[i]) > 0);
    }
}

/// `n` has `count` prime factors, none of which is above `bound`.
pub open spec fn small_factors(n: nat, count: nat, bound: nat) -> bool {
    &&& factor::factors_of(n).len() == count
    &&& forall|i: int| 0 <= i < count ==> #[trigger] factor::factors_of(n)[i] <= bound
}

proof fn lemma_small_factors(n: nat, s: Seq<nat>, bound: nat)
    requires
        factors_are(n, s),
        forall|i: int| 0 <= i < s.len() ==> #[trigger] s[i] <= bound,
    ensures
        small_factors(n, s.len(), bound),
{
    lemma_factors_in(n, s);
    let f = factor::factors_of(n);
    assert forall|i: int| 0 <= i < s.len() implies #[trigger] f[i] <= bound by {
        let j = choose|j: int| 0 <= j < s.len() && s[j] == f[i];
        assert(s[j] <= bound);
    }
}

/// Law: the highly composite numbers have 40, 50, 63, 36, 12, 10, 15 and 33 prime
/// factors, none of them above 47.
pub proof fn law_highly_composite_counts(cases: Seq<TestCase>)
    requires
        suite::highly_composite_cases(cases),
    ensures
        small_factors(cases[0].number as nat, 40, 2),
        small_factors(cases[1].number as nat, 50, 2),
        small_factors(cases[2].number as nat, 63, 2),
        small_factors(cases[3].number as nat, 36, 19),
        small_factors(cases[4].number as nat, 12, 7),
        small_factors(cases[5].number as nat, 10, 13),
        small_factors(cases[6].number as nat, 15, 47),
        small_factors(cases[7].number as nat, 33, 7),
        forall|j: int|
            0 <= j < cases.len() ==> 10 <= factor::factors_of(
                (#[trigger] cases[j]).number as nat,
            ).len(),
{
    law_highly_composite_factors(cases);
    lemma_small_factors(cases[0].number as nat, repeated(2, 40), 2);
    lemma_small_factors(cases[1].number as nat, repeated(2, 50), 2);
    lemma_small_factors(cases[2].number as nat, repeated(2, 63), 2);
    lemma_small_factors(
        cases[3].number as nat,
        repeated(2, 18) + repeated(3, 8) + seq![5nat, 5, 5, 5, 7, 7, 11, 13, 17, 19],
        19,
    );
    lemma_small_factors(cases[4].number as nat, seq![2nat, 2, 2, 3, 3, 3, 5, 5, 5, 7, 7, 7], 7);
    lemma_small_factors(cases[5].number as nat, seq![2nat, 2, 2, 2, 3, 3, 5, 7, 11, 13], 13);
    lemma_small_factors(
        cases[6].number as nat,
        seq![2nat, 3, 5, 7, 11, 13, 17, 19, 23, 29, 31, 37, 41, 43, 47],
        47,
    );
    lemma_small_factors(cases[7].number as nat, repeated(2, 20) + repeated(3, 10) + seq![7nat, 7, 7], 7);
}

/// Law: the product of the first primes has every prime up to 47 as a factor, once, and
/// no other; these are 15.
pub proof fn law_first_primes(cases: Seq<TestCase>)
    requires
        suite::highly_composite_cases(cases),
    ensures
        factor::factors_of(cases[6].number as nat).len() == 15,
        forall|p: nat| #[trigger]
            factor::factors_of(cases[6].number as nat).to_multiset().count(p) == if arith::prime(p)
                && p <= 47 {
                1nat
            } else {
                0
            },
{
    broadcast use vstd::seq_lib::group_to_multiset_ensures;

    let s = seq![2nat, 3, 5, 7, 11, 13, 17, 19, 23, 29, 31, 37, 41, 43, 47];
    law_highly_composite_factors(cases);
    lemma_factors_in(cases[6].number as nat, s);
    known_primes::lemma_small_primes();
    s.lemma_multiset_has_no_duplicates();
    assert forall|p: nat| #[trigger]
        factor::factors_of(cases[6].number as nat).to_multiset().count(p) == if arith::prime(p) && p
            <= 47 {
            1nat
        } else {
            0
        } by {
        assert(s[0] == 2 && s[1] == 3 && s[2] == 5 && s[3] == 7 && s[4] == 11 && s[5] == 13 && s[6]
            == 17 && s[7] == 19 && s[8] == 23 && s[9] == 29 && s[10] == 31 && s[11] == 37 && s[12]
            == 41 && s[13] == 43 && s[14] == 47);
        if arith::prime(p) && p <= 47 {
            assert(arith::divides(2, p) ==> p == 2);
            assert(arith::divides(3, p) ==> p == 3);
            assert(arith::divides(5, p) ==> p == 5);
            assert(s.contains(p));
            assert(s.to_multiset().contains(p));
        } else if s.contains(p) {
            let i = choose|i: int| 0 <= i < s.len() && s[i] == p;
            assert(arith::prime(s[i]));
        } else {
            assert(s.to_multiset().count(p) == 0);
        }
    }
}

/// Law: the factorial is the product of the numbers up to 20.
pub proof fn law_factorial(cases: Seq<TestCase>)
    requires
        suite::highly_composite_cases(cases),
    ensures
        cases[3].number == product::product(Seq::new(20, |i: int| (i + 1) as nat)),
{
    let f = |i: int| (i + 1) as nat;
    assert(Seq::new(0, f) =~= Seq::<nat>::empty());
    assert(product::product(Seq::new(0, f)) == 1);
    lemma_factorial(0, 1);
    lemma_factorial(1, 1);
    lemma_factorial(2, 2);
    lemma_factorial(3, 6);
    lemma_factorial(4, 24);
    lemma_factorial(5, 120);
    lemma_factorial(6, 720);
    lemma_factorial(7, 5_040);
    lemma_factorial(8, 40_320);
    lemma_factorial(9, 362_880);
    lemma_factorial(10, 3_628_800);
    lemma_factorial(11, 39_916_800);
    lemma_factorial(12, 479_001_600);
    lemma_factorial(13, 6_227_020_800);
    lemma_factorial(14, 87_178_291_200);
    lemma_factorial(15, 1_307_674_368_000);
    lemma_factorial(16, 20_922_789_888_000);
    lemma_factorial(17, 355_687_428_096_000);
    lemma_factorial(18, 6_402_373_705_728_000);
    lemma_factorial(19, 121_645_100_408_832_000);
}

/// The product of the numbers up to `k + 1` from that of those up to `k`.
proof fn lemma_factorial(k: nat, m: nat)
    requires
        product::product(Seq::new(k, |i: int| (i + 1) as nat)) == m,
    ensures
        product::product(Seq::new(k + 1, |i: int| (i + 1) as nat)) == m * (k + 1),
{
    let s = Seq::new(k, |i: int| (i + 1) as nat);
    product::lemma_product_push(s, k + 1);
    assert(s.push(k + 1) =~= Seq::new(k + 1, |i: int| (i + 1) as nat));
}

/// Law: the Fibonacci number is the 44th of any sequence that starts with zero and one
/// and adds up two neighbours to the next.
pub proof fn law_fibonacci(cases: Seq<TestCase>, f: spec_fn(nat) -> nat)
    requires
        suite::stress_mixed_cases(cases),
        f(0) == 0,
        f(1) == 1,
        forall|i: nat| #[trigger] f(i + 2) == f(i) + f(i + 1),
    ensures
        cases[5].number == f(44),
{
    assert(f(0 + 2) == 1);
    assert(f(1 + 2) == 2);
    assert(f(2 + 2) == 3);
    assert(f(3 + 2) == 5);
    assert(f(4 + 2) == 8);
    assert(f(5 + 2) == 13);
    assert(f(6 + 2) == 21);
    assert(f(7 + 2) == 34);
    assert(f(8 + 2) == 55);
    assert(f(9 + 2) == 89);
    assert(f(10 + 2) == 144);
    assert(f(11 + 2) == 233);
    assert(f(12 + 2) == 377);
    assert(f(13 + 2) == 610);
    assert(f(14 + 2) == 987);
    assert(f(15 + 2) == 1_597);
    assert(f(16 + 2) == 2_584);
    assert(f(17 + 2) == 4_181);
    assert(f(18 + 2) == 6_765);
    assert(f(19 + 2) == 10_946);
    assert(f(20 + 2) == 17_711);
    assert(f(21 + 2) == 28_657);
    assert(f(22 + 2) == 46_368);
    assert(f(23 + 2) == 75_025);
    assert(f(24 + 2) == 121_393);
    assert(f(25 + 2) == 196_418);
    assert(f(26 + 2) == 317_811);
    assert(f(27 + 2) == 514_229);
    assert(f(28 + 2) == 832_040);
    assert(f(29 + 2) == 1_346_269);
    assert(f(30 + 2) == 2_178_309);
    assert(f(31 + 2) == 3_524_578);
    assert(f(32 + 2) == 5_702_887);
    assert(f(33 + 2) == 9_227_465);
    assert(f(34 + 2) == 14_930_352);
    assert(f(35 + 2) == 24_157_817);
    assert(f(36 + 2) == 39_088_169);
    assert(f(37 + 2) == 63_245_986);
    assert(f(38 + 2) == 102_334_155);
    assert(f(39 + 2) == 165_580_141);
    assert(f(40 + 2) == 267_914_296);
    assert(f(41 + 2) == 433_494_437);
    assert(f(42 + 2) == 701_408_733);
}

/// Modulo a prime whose predecessor divides `n - 1`, the `n`-th power changes nothing.
proof fn lemma_power_fixes(a: nat, n: nat, p: nat)
    requires
        arith::prime(p),
        n >= 1,
        arith::divides((p - 1) as nat, (n - 1) as nat),
    ensures
        pow(a as int, n) % p as int == a as int % p as int,
{
    let b = a as int;
    let q = p as int;
    let m = (n - 1) as nat;
    lemma_pow_adds(b, 1, m);
    lemma_pow1(b);
    let x = pow(b, m);
    lemma_mul_mod_noop_general(b, x, q);
    if arith::divides(p, a) {
        assert(b % q == 0);
        assert((b % q) * (x % q) == 0) by (nonlinear_arith)
            requires
                b % q == 0,
        ;
        lemma_small_mod(0, p);
    } else {
        fermat::lemma_fermat(a, p);
        let o = (p - 1) as nat;
        let k = arith::lemma_divides_quotient(o, m);
        lemma_pow_multiplies(b, o, k);
        lemma_pow_mod_noop(pow(b, o), k, q);
        lemma1_pow(k);
        lemma_small_mod(1, p);
        assert(x % q == 1);
        assert((b % q) * 1 == b % q);
        lemma_mod_twice(b, q);
    }
}

/// A prime that does not divide `m` joins it in what they both divide.
proof fn lemma_divides_both(m: nat, p: nat, d: nat)
    requires
        arith::prime(p),
        !arith::divides(p, m),
        arith::divides(m, d),
        arith::divides(p, d),
    ensures
        arith::divides(m * p, d),
{
    let k = arith::lemma_divides_quotient(m, d);
    arith::lemma_prime_divides_product(p, m, k);
    let j = arith::lemma_divides_quotient(p, k);
    lemma_mul_is_associative(m as int, p as int, j as int);
    arith::lemma_divides_multiple(m * p, j);
}

/// `n` is composite, and yet no base shows it by its `n`-th power.
pub open spec fn carmichael(n: nat) -> bool {
    &&& n >= 2
    &&& !arith::prime(n)
    &&& forall|a: nat| #[trigger] pow(a as int, n) % n as int == a as int % n as int
}

/// The distance between a number and its `n`-th power.
spec fn moved(a: nat, n: nat) -> nat {
    if pow(a as int, n) >= a {
        (pow(a as int, n) - a) as nat
    } else {
        (a - pow(a as int, n)) as nat
    }
}

proof fn lemma_moved(a: nat, n: nat, p: nat)
    requires
        p >= 1,
    ensures
        arith::divides(p, moved(a, n)) <==> pow(a as int, n) % p as int == a as int % p as int,
{
    let x = pow(a as int, n);
    lemma_mod_equivalence(x, a as int, p as int);
    lemma_mod_equivalence(a as int, x, p as int);
}

/// Law: the two numbers that are called Carmichael numbers are.
pub proof fn law_carmichael(mixed: Seq<TestCase>, edges: Seq<TestCase>)
    requires
        suite::stress_mixed_cases(mixed),
        suite::edge_cases(edges),
    ensures
        carmichael(mixed[7].number as nat),
        carmichael(edges[2].number as nat),
{
    suite::lemma_powers();
    known_primes::lemma_small_primes();
    assert(arith::divides(3, 561));
    assert(arith::divides(7, 41_041));
    assert forall|a: nat| #[trigger] pow(a as int, 561) % 561 == a as int % 561 by {
        lemma_power_fixes(a, 561, 3);
        lemma_power_fixes(a, 561, 11);
        lemma_power_fixes(a, 561, 17);
        lemma_moved(a, 561, 3);
        lemma_moved(a, 561, 11);
        lemma_moved(a, 561, 17);
        lemma_divides_both(3, 11, moved(a, 561));
        lemma_divides_both(33, 17, moved(a, 561));
        lemma_moved(a, 561, 561);
    }
    assert forall|a: nat| #[trigger] pow(a as int, 41_041) % 41_041 == a as int % 41_041 by {
        lemma_power_fixes(a, 41_041, 7);
        lemma_power_fixes(a, 41_041, 11);
        lemma_power_fixes(a, 41_041, 13);
        lemma_power_fixes(a, 41_041, 41);
        lemma_moved(a, 41_041, 7);
        lemma_moved(a, 41_041, 11);
        lemma_moved(a, 41_041, 13);
        lemma_moved(a, 41_041, 41);
        lemma_divides_both(7, 11, moved(a, 41_041));
        lemma_divides_both(77, 13, moved(a, 41_041));
        lemma_divides_both(1_001, 41, moved(a, 41_041));
        lemma_moved(a, 41_041, 41_041);
    }
}

/// Law: the boundary values are the least prime, the greatest prime of one digit, the
/// predecessor of the first number of the prime category, a composite that is one less
/// than a power of two, and a cube of a cube.
pub proof fn law_edges(edges: Seq<TestCase>, primes: Seq<TestCase>)
    requires
        suite::edge_cases(edges),
        suite::primes_cases(primes),
    ensures
        arith::prime(edges[0].number as nat),
        forall|p: nat| #[trigger] arith::prime(p) ==> edges[0].number <= p,
        arith::prime(edges[1].number as nat),
        edges[1].number < 10,
        forall|p: nat| #[trigger] arith::prime(p) && p < 10 ==> p <= edges[1].number,
        edges[3].number + 1 == primes[0].number,
        !arith::prime(edges[4].number as nat),
        edges[4].number + 1 == pow(2, 59),
        edges[5].number == pow(21, 9),
{
    suite::lemma_powers();
    known_primes::lemma_small_primes();
    assert forall|p: nat| #[trigger] arith::prime(p) && p < 10 implies p <= 7 by {
        assert(arith::divides(2, p) ==> p == 2);
        assert(arith::divides(3, p) ==> p == 3);
    }
    assert(arith::divides(179_951, 576_460_752_303_423_487));
    reveal_with_fuel(pow, 10);
    assert(pow(21, 9) == 794_280_046_581);
}

/// Law: one of the numbers of varied difficulty is the square of the Mersenne prime of
/// the prime category, and one is 29 times the prime next to a power of ten.
pub proof fn law_mixed_from_primes(mixed: Seq<TestCase>, primes: Seq<TestCase>)
    requires
        suite::stress_mixed_cases(mixed),
        suite::primes_cases(primes),
    ensures
        mixed[1].number == 29 * primes[1].number,
        mixed[4].number == primes[2].number * primes[2].number,
        primes[2].number + 1 == pow(2, 31),
        pow(10, 16) - 100 < primes[0].number < pow(10, 16),
        pow(10, 15) - 100 < primes[1].number < pow(10, 15),
        pow(10, 12) < primes[3].number < pow(10, 12) + 100,
        pow(10, 18) - 200 < primes[4].number < primes[5].number < pow(10, 18),
{
    suite::lemma_powers();
}

/// Law: the stress tests repeat numbers of the large semiprimes and one that is one less
/// than a power of two, each 500 times. The hardest of them is also the one whose
/// throughput is measured, in 8 batches of 1,600 factorizations together, and another one
/// the one that the warm-up factorizes 20 times.
pub proof fn law_stress_repeats(cases: Seq<suite::StressCase>, semiprimes: Seq<TestCase>)
    requires
        suite::stress_list(cases),
        suite::large_semiprimes_cases(semiprimes),
    ensures
        forall|j: int| 0 <= j < cases.len() ==> (#[trigger] cases[j]).iterations == 500,
        cases[0].number == semiprimes[2].number,
        cases[0].number == suite::HARD_NUMBER,
        cases[1].number == semiprimes[0].number,
        cases[1].number == suite::WARMUP_NUMBER,
        cases[2].number + 1 == pow(2, 61),
        suite::READINESS_BATCHES * suite::READINESS_ITERATIONS == 1_600,
        suite::READINESS_BATCHES == 8,
        suite::WARMUP_ROUNDS == 20,
{
    suite::lemma_powers();
}

/// Law: a category holds what its name and its description say, whichever place it has.
pub proof fn law_categories_by_name(defs: Seq<suite::CategoryDef>, i: int)
    requires
        suite::run_categories(defs),
        0 <= i < defs.len(),
    ensures
        defs[i].name@ == "Large Semiprimes"@ <==> "Products of two large primes"@.is_prefix_of(
            defs[i].description@,
        ),
        defs[i].name@ == "Large Semiprimes"@ ==> forall|j: int|
            0 <= j < defs[i].cases@.len() ==> exists|p: nat, q: nat|
                suite::semiprime((#[trigger] defs[i].cases@[j]).number as nat, p, q, 8, 10),
        defs[i].name@ == "Highly Composite"@ <==> "Numbers with many small factors"@.is_prefix_of(
            defs[i].description@,
        ),
        defs[i].name@ == "Highly Composite"@ ==> forall|j: int|
            0 <= j < defs[i].cases@.len() ==> 10 <= factor::factors_of(
                (#[trigger] defs[i].cases@[j]).number as nat,
            ).len(),
        defs[i].name@ == "Prime Detection"@ <==> "Known large primes"@.is_prefix_of(
            defs[i].description@,
        ),
        defs[i].name@ == "Prime Detection"@ ==> forall|j: int|
            0 <= j < defs[i].cases@.len() ==> arith::prime(
                (#[trigger] defs[i].cases@[j]).number as nat,
            ),
        defs[i].name@ == "Stress Mix"@ <==> "Varied difficulty"@.is_prefix_of(
            defs[i].description@,
        ),
        defs[i].name@ == "Stress Mix"@ ==> defs[i].cases@.len() == 8 && forall|j: int|
            0 <= j < 8 ==> !arith::prime((#[trigger] defs[i].cases@[j]).number as nat),
        defs[i].name@ == "Edge Cases"@ <==> "Boundary values"@.is_prefix_of(
            defs[i].description@,
        ),
        defs[i].name@ == "Edge Cases"@ ==> defs[i].cases@.len() == 6 && defs[i].cases@[0].number
            == 2,
{
    reveal_strlit("Large Semiprimes");
    reveal_strlit("Highly Composite");
    reveal_strlit("Prime Detection");
    reveal_strlit("Stress Mix");
    reveal_strlit("Edge Cases");
    assert("Large Semiprimes"@[0] == 'L' && "Highly Composite"@[0] == 'H' && "Prime Detection"@[0]
        == 'P' && "Stress Mix"@[0] == 'S' && "Edge Cases"@[0] == 'E');
    lemma_descriptions(defs, i);
    if i == 0 {
        suite::law_large_semiprimes(defs[0].cases@);
    } else if i == 1 {
        law_highly_composite_counts(defs[1].cases@);
    } else if i == 2 {
        suite::law_primes(defs[2].cases@);
    } else if i == 3 {
        lemma_mixed_composite(defs[3].cases@);
    }
}

proof fn lemma_mixed_composite(cases: Seq<TestCase>)
    requires
        suite::stress_mixed_cases(cases),
    ensures
        forall|j: int| 0 <= j < 8 ==> !arith::prime((#[trigger] cases[j]).number as nat),
{
    suite::lemma_powers();
    assert(arith::divides(97, cases[0].number as nat));
    assert(arith::divides(29, cases[1].number as nat));
    assert(arith::divides(7, cases[2].number as nat));
    assert(arith::divides(99_999_959, cases[3].number as nat));
    assert(arith::divides(2_147_483_647, cases[4].number as nat));
    assert(arith::divides(3, cases[5].number as nat));
    assert(arith::divides(2, cases[6].number as nat));
    assert(arith::divides(3, cases[7].number as nat));
}

proof fn lemma_prefix(p: Seq<char>, text: Seq<char>)
    requires
        p.len() > 0,
        text.len() > 0,
    ensures
        p.is_prefix_of(text) ==> p[0] == text[0],
{
    if p.is_prefix_of(text) {
        assert(p[0] == text.subrange(0, p.len() as int)[0]);
    }
}

proof fn lemma_descriptions(defs: Seq<suite::CategoryDef>, i: int)
    requires
        suite::run_categories(defs),
        0 <= i < defs.len(),
    ensures
        i == 0 <==> "Products of two large primes"@.is_prefix_of(defs[i].description@),
        i == 1 <==> "Numbers with many small factors"@.is_prefix_of(defs[i].description@),
        i == 2 <==> "Known large primes"@.is_prefix_of(defs[i].description@),
        i == 3 <==> "Varied difficulty"@.is_prefix_of(defs[i].description@),
        i == 4 <==> "Boundary values"@.is_prefix_of(defs[i].description@),
{
    let text = defs[i].description@;
    reveal_strlit("Products of two large primes");
    reveal_strlit("Numbers with many small factors");
    reveal_strlit("Known large primes");
    reveal_strlit("Varied difficulty");
    reveal_strlit("Boundary values");
    reveal_strlit(
        "Products of two large primes (verified constructions) — hardest case for Pollard's rho",
    );
    reveal_strlit(
        "Numbers with many small factors — tests recursive decomposition and trial division",
    );
    reveal_strlit("Known large primes — exercises deterministic Miller-Rabin (no factorization)");
    reveal_strlit(
        "Varied difficulty: multi-prime products, powers, Carmichael numbers, edge values",
    );
    reveal_strlit(
        "Boundary values: tiny primes, composite Mersenne, perfect cubes, adjacent primes",
    );
    assert("Products of two large primes"@[0] == 'P' && "Numbers with many small factors"@[0] == 'N'
        && "Known large primes"@[0] == 'K' && "Varied difficulty"@[0] == 'V'
        && "Boundary values"@[0] == 'B');
    lemma_prefix("Products of two large primes"@, text);
    lemma_prefix("Numbers with many small factors"@, text);
    lemma_prefix("Known large primes"@, text);
    lemma_prefix("Varied difficulty"@, text);
    lemma_prefix("Boundary values"@, text);
    if i == 0 {
        assert("Products of two large primes"@ =~= text.subrange(0, 28));
    } else if i == 1 {
        assert("Numbers with many small factors"@ =~= text.subrange(0, 31));
    } else if i == 2 {
        assert("Known large primes"@ =~= text.subrange(0, 18));
    } else if i == 3 {
        assert("Varied difficulty"@ =~= text.subrange(0, 17));
    } else {
        assert("Boundary values"@ =~= text.subrange(0, 15));
    }
}

} // verus!
