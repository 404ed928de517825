//! What the labels of the cases say of their numbers.

use crate::arith;
use crate::display;
use crate::factor;
use crate::known_primes;
use crate::suite;
use crate::suite::TestCase;
use crate::suite_numbers;
use vstd::arithmetic::power::*;
use vstd::prelude::*;
use vstd::string::*;

verus! {

/// The text of a single factor.
proof fn lemma_first_factor(x: nat, base: Seq<char>)
    requires
        display::grouped(x) == base,
    ensures
        display::factors_text(suite_numbers::repeated(x, 1)) == base,
{
    let t = Seq::<nat>::empty();
    display::law_factors_text(t, x, 1);
    assert(t + Seq::new(1, |i: int| x) =~= suite_numbers::repeated(x, 1));
    assert(Seq::<char>::empty() + base + Seq::empty() =~= base);
}

/// The text of a single power.
proof fn lemma_first_power(x: nat, base: Seq<char>, e: nat, exp: Seq<char>)
    requires
        e >= 2,
        display::grouped(x) == base,
        display::decimal(e) == exp,
    ensures
        display::factors_text(suite_numbers::repeated(x, e)) == base + seq!['^'] + exp,
{
    let t = Seq::<nat>::empty();
    display::law_factors_text(t, x, e);
    assert(t + Seq::new(e, |i: int| x) =~= suite_numbers::repeated(x, e));
    assert(Seq::<char>::empty() + base + (seq!['^'] + exp) =~= base + seq!['^'] + exp);
}

/// The text of a factor behind others.
proof fn lemma_next_factor(t: Seq<nat>, text: Seq<char>, x: nat, base: Seq<char>)
    requires
        t.len() > 0,
        t[t.len() - 1] != x,
        display::factors_text(t) == text,
        display::grouped(x) == base,
    ensures
        display::factors_text(t + suite_numbers::repeated(x, 1)) == text + seq![' ', '×', ' '] + base,
{
    display::law_factors_text(t, x, 1);
    assert(t + Seq::new(1, |i: int| x) =~= t + suite_numbers::repeated(x, 1));
    assert(text + seq![' ', '×', ' '] + base + Seq::empty() =~= text + seq![' ', '×', ' '] + base);
}

/// The text of a power behind others.
proof fn lemma_next_power(
    t: Seq<nat>,
    text: Seq<char>,
    x: nat,
    base: Seq<char>,
    e: nat,
    exp: Seq<char>,
)
    requires
        e >= 2,
        t.len() > 0,
        t[t.len() - 1] != x,
        display::factors_text(t) == text,
        display::grouped(x) == base,
        display::decimal(e) == exp,
    ensures
        display::factors_text(t + suite_numbers::repeated(x, e)) == text + seq![' ', '×', ' '] + base + seq!['^']
            + exp,
{
    display::law_factors_text(t, x, e);
    assert(t + Seq::new(e, |i: int| x) =~= t + suite_numbers::repeated(x, e));
    assert(text + seq![' ', '×', ' '] + base + (seq!['^'] + exp) =~= text + seq![' ', '×', ' ']
        + base + seq!['^'] + exp);
}

proof fn lemma_semiprime_label_0_parts()
    ensures
        "99,999,971 × 99,999,989 (8-digit × 8-digit)"@ == seq!['9', '9', ',', '9', '9', '9', ',', '9', '7', '1'] + " × "@ + seq!['9', '9', ',', '9', '9', '9', ',', '9', '8', '9'] + " ("@ + seq!['8'] + "-digit × "@ + seq!['8'] + "-digit)"@,
{
    reveal_strlit("99,999,971 × 99,999,989 (8-digit × 8-digit)");
    reveal_strlit(" × ");
    reveal_strlit(" (");
    reveal_strlit("-digit × ");
    reveal_strlit("-digit)");
    assert("99,999,971 × 99,999,989 (8-digit × 8-digit)"@ =~= seq!['9', '9', ',', '9', '9', '9', ',', '9', '7', '1'] + " × "@ + seq!['9', '9', ',', '9', '9', '9', ',', '9', '8', '9'] + " ("@ + seq!['8'] + "-digit × "@ + seq!['8'] + "-digit)"@);
}

proof fn lemma_semiprime_label_0()
    ensures
        "99,999,971 × 99,999,989 (8-digit × 8-digit)"@ == display::grouped(99_999_971) + " × "@ + display::grouped(99_999_989) + " ("@ + display::decimal(8) + "-digit × "@ + display::decimal(8) + "-digit)"@,
{
    assert(display::decimal(99) =~= seq!['9', '9']) by {
        reveal_with_fuel(display::decimal, 3);
    }
    display::law_grouped_small(99);
    display::law_grouped_step(99, 999);
    assert(display::grouped(99_999) =~= seq!['9', '9', ',', '9', '9', '9']);
    display::law_grouped_step(99_999, 971);
    assert(display::grouped(99_999_971) =~= seq!['9', '9', ',', '9', '9', '9', ',', '9', '7', '1']);
    display::law_grouped_step(99_999, 989);
    assert(display::grouped(99_999_989) =~= seq!['9', '9', ',', '9', '9', '9', ',', '9', '8', '9']);
    assert(display::decimal(8) =~= seq!['8']) by {
        reveal_with_fuel(display::decimal, 2);
    }
    lemma_semiprime_label_0_parts();
}

proof fn lemma_semiprime_label_1_parts()
    ensures
        "999,999,937 × 999,999,893 (9-digit × 9-digit)"@ == seq!['9', '9', '9', ',', '9', '9', '9', ',', '9', '3', '7'] + " × "@ + seq!['9', '9', '9', ',', '9', '9', '9', ',', '8', '9', '3'] + " ("@ + seq!['9'] + "-digit × "@ + seq!['9'] + "-digit)"@,
{
    reveal_strlit("999,999,937 × 999,999,893 (9-digit × 9-digit)");
    reveal_strlit(" × ");
    reveal_strlit(" (");
    reveal_strlit("-digit × ");
    reveal_strlit("-digit)");
    assert("999,999,937 × 999,999,893 (9-digit × 9-digit)"@ =~= seq!['9', '9', '9', ',', '9', '9', '9', ',', '9', '3', '7'] + " × "@ + seq!['9', '9', '9', ',', '9', '9', '9', ',', '8', '9', '3'] + " ("@ + seq!['9'] + "-digit × "@ + seq!['9'] + "-digit)"@);
}

proof fn lemma_semiprime_label_1()
    ensures
        "999,999,937 × 999,999,893 (9-digit × 9-digit)"@ == display::grouped(999_999_937) + " × "@ + display::grouped(999_999_893) + " ("@ + display::decimal(9) + "-digit × "@ + display::decimal(9) + "-digit)"@,
{
    assert(display::decimal(999) =~= seq!['9', '9', '9']) by {
        reveal_with_fuel(display::decimal, 4);
    }
    display::law_grouped_small(999);
    display::law_grouped_step(999, 999);
    assert(display::grouped(999_999) =~= seq!['9', '9', '9', ',', '9', '9', '9']);
    display::law_grouped_step(999_999, 937);
    assert(display::grouped(999_999_937) =~= seq!['9', '9', '9', ',', '9', '9', '9', ',', '9', '3', '7']);
    display::law_grouped_step(999_999, 893);
    assert(display::grouped(999_999_893) =~= seq!['9', '9', '9', ',', '9', '9', '9', ',', '8', '9', '3']);
    assert(display::decimal(9) =~= seq!['9']) by {
        reveal_with_fuel(display::decimal, 2);
    }
    lemma_semiprime_label_1_parts();
}

proof fn lemma_semiprime_label_2_parts()
    ensures
        "999,999,751 × 999,999,883 (9-digit × 9-digit)"@ == seq!['9', '9', '9', ',', '9', '9', '9', ',', '7', '5', '1'] + " × "@ + seq!['9', '9', '9', ',', '9', '9', '9', ',', '8', '8', '3'] + " ("@ + seq!['9'] + "-digit × "@ + seq!['9'] + "-digit)"@,
{
    reveal_strlit("999,999,751 × 999,999,883 (9-digit × 9-digit)");
    reveal_strlit(" × ");
    reveal_strlit(" (");
    reveal_strlit("-digit × ");
    reveal_strlit("-digit)");
    assert("999,999,751 × 999,999,883 (9-digit × 9-digit)"@ =~= seq!['9', '9', '9', ',', '9', '9', '9', ',', '7', '5', '1'] + " × "@ + seq!['9', '9', '9', ',', '9', '9', '9', ',', '8', '8', '3'] + " ("@ + seq!['9'] + "-digit × "@ + seq!['9'] + "-digit)"@);
}

proof fn lemma_semiprime_label_2()
    ensures
        "999,999,751 × 999,999,883 (9-digit × 9-digit)"@ == display::grouped(999_999_751) + " × "@ + display::grouped(999_999_883) + " ("@ + display::decimal(9) + "-digit × "@ + display::decimal(9) + "-digit)"@,
{
    assert(display::decimal(999) =~= seq!['9', '9', '9']) by {
        reveal_with_fuel(display::decimal, 4);
    }
    display::law_grouped_small(999);
    display::law_grouped_step(999, 999);
    assert(display::grouped(999_999) =~= seq!['9', '9', '9', ',', '9', '9', '9']);
    display::law_grouped_step(999_999, 751);
    assert(display::grouped(999_999_751) =~= seq!['9', '9', '9', ',', '9', '9', '9', ',', '7', '5', '1']);
    display::law_grouped_step(999_999, 883);
    assert(display::grouped(999_999_883) =~= seq!['9', '9', '9', ',', '9', '9', '9', ',', '8', '8', '3']);
    assert(display::decimal(9) =~= seq!['9']) by {
        reveal_with_fuel(display::decimal, 2);
    }
    lemma_semiprime_label_2_parts();
}

proof fn lemma_semiprime_label_3_parts()
    ensures
        "99,999,989 × 999,999,937 (8-digit × 9-digit)"@ == seq!['9', '9', ',', '9', '9', '9', ',', '9', '8', '9'] + " × "@ + seq!['9', '9', '9', ',', '9', '9', '9', ',', '9', '3', '7'] + " ("@ + seq!['8'] + "-digit × "@ + seq!['9'] + "-digit)"@,
{
    reveal_strlit("99,999,989 × 999,999,937 (8-digit × 9-digit)");
    reveal_strlit(" × ");
    reveal_strlit(" (");
    reveal_strlit("-digit × ");
    reveal_strlit("-digit)");
    assert("99,999,989 × 999,999,937 (8-digit × 9-digit)"@ =~= seq!['9', '9', ',', '9', '9', '9', ',', '9', '8', '9'] + " × "@ + seq!['9', '9', '9', ',', '9', '9', '9', ',', '9', '3', '7'] + " ("@ + seq!['8'] + "-digit × "@ + seq!['9'] + "-digit)"@);
}

proof fn lemma_semiprime_label_3()
    ensures
        "99,999,989 × 999,999,937 (8-digit × 9-digit)"@ == display::grouped(99_999_989) + " × "@ + display::grouped(999_999_937) + " ("@ + display::decimal(8) + "-digit × "@ + display::decimal(9) + "-digit)"@,
{
    assert(display::decimal(99) =~= seq!['9', '9']) by {
        reveal_with_fuel(display::decimal, 3);
    }
    display::law_grouped_small(99);
    display::law_grouped_step(99, 999);
    assert(display::grouped(99_999) =~= seq!['9', '9', ',', '9', '9', '9']);
    display::law_grouped_step(99_999, 989);
    assert(display::grouped(99_999_989) =~= seq!['9', '9', ',', '9', '9', '9', ',', '9', '8', '9']);
    assert(display::decimal(999) =~= seq!['9', '9', '9']) by {
        reveal_with_fuel(display::decimal, 4);
    }
    display::law_grouped_small(999);
    display::law_grouped_step(999, 999);
    assert(display::grouped(999_999) =~= seq!['9', '9', '9', ',', '9', '9', '9']);
    display::law_grouped_step(999_999, 937);
    assert(display::grouped(999_999_937) =~= seq!['9', '9', '9', ',', '9', '9', '9', ',', '9', '3', '7']);
    assert(display::decimal(8) =~= seq!['8']) by {
        reveal_with_fuel(display::decimal, 2);
    }
    assert(display::decimal(9) =~= seq!['9']) by {
        reveal_with_fuel(display::decimal, 2);
    }
    lemma_semiprime_label_3_parts();
}

proof fn lemma_semiprime_label_4_parts()
    ensures
        "99,999,989² (perfect square semiprime)"@ == seq!['9', '9', ',', '9', '9', '9', ',', '9', '8', '9'] + "² (perfect square semiprime)"@,
{
    reveal_strlit("99,999,989² (perfect square semiprime)");
    reveal_strlit("² (perfect square semiprime)");
    assert("99,999,989² (perfect square semiprime)"@ =~= seq!['9', '9', ',', '9', '9', '9', ',', '9', '8', '9'] + "² (perfect square semiprime)"@);
}

proof fn lemma_semiprime_label_4()
    ensures
        "99,999,989² (perfect square semiprime)"@ == display::grouped(99_999_989) + "² (perfect square semiprime)"@,
{
    assert(display::decimal(99) =~= seq!['9', '9']) by {
        reveal_with_fuel(display::decimal, 3);
    }
    display::law_grouped_small(99);
    display::law_grouped_step(99, 999);
    assert(display::grouped(99_999) =~= seq!['9', '9', ',', '9', '9', '9']);
    display::law_grouped_step(99_999, 989);
    assert(display::grouped(99_999_989) =~= seq!['9', '9', ',', '9', '9', '9', ',', '9', '8', '9']);
    lemma_semiprime_label_4_parts();
}

proof fn lemma_semiprime_label_5_parts()
    ensures
        "4,294,967,291 × 4,294,967,279 (near 2^32)"@ == seq!['4', ',', '2', '9', '4', ',', '9', '6', '7', ',', '2', '9', '1'] + " × "@ + seq!['4', ',', '2', '9', '4', ',', '9', '6', '7', ',', '2', '7', '9'] + " (near 2^32)"@,
{
    reveal_strlit("4,294,967,291 × 4,294,967,279 (near 2^32)");
    reveal_strlit(" × ");
    reveal_strlit(" (near 2^32)");
    assert("4,294,967,291 × 4,294,967,279 (near 2^32)"@ =~= seq!['4', ',', '2', '9', '4', ',', '9', '6', '7', ',', '2', '9', '1'] + " × "@ + seq!['4', ',', '2', '9', '4', ',', '9', '6', '7', ',', '2', '7', '9'] + " (near 2^32)"@);
}

proof fn lemma_semiprime_label_5()
    ensures
        "4,294,967,291 × 4,294,967,279 (near 2^32)"@ == display::grouped(4_294_967_291) + " × "@ + display::grouped(4_294_967_279) + " (near 2^32)"@,
{
    assert(display::decimal(4) =~= seq!['4']) by {
        reveal_with_fuel(display::decimal, 2);
    }
    display::law_grouped_small(4);
    display::law_grouped_step(4, 294);
    assert(display::grouped(4_294) =~= seq!['4', ',', '2', '9', '4']);
    display::law_grouped_step(4_294, 967);
    assert(display::grouped(4_294_967) =~= seq!['4', ',', '2', '9', '4', ',', '9', '6', '7']);
    display::law_grouped_step(4_294_967, 291);
    assert(display::grouped(4_294_967_291) =~= seq!['4', ',', '2', '9', '4', ',', '9', '6', '7', ',', '2', '9', '1']);
    display::law_grouped_step(4_294_967, 279);
    assert(display::grouped(4_294_967_279) =~= seq!['4', ',', '2', '9', '4', ',', '9', '6', '7', ',', '2', '7', '9']);
    lemma_semiprime_label_5_parts();
}

proof fn lemma_composite_label_0_parts()
    ensures
        "2^40 (40 prime factors)"@ == "2^"@ + seq!['4', '0'] + " ("@ + seq!['4', '0'] + " prime factors)"@,
{
    reveal_strlit("2^40 (40 prime factors)");
    reveal_strlit("2^");
    reveal_strlit(" (");
    reveal_strlit(" prime factors)");
    assert("2^40 (40 prime factors)"@ =~= "2^"@ + seq!['4', '0'] + " ("@ + seq!['4', '0'] + " prime factors)"@);
}

proof fn lemma_composite_label_0()
    ensures
        "2^40 (40 prime factors)"@ == "2^"@ + display::decimal(40) + " ("@ + display::decimal(40) + " prime factors)"@,
{
    assert(display::decimal(40) =~= seq!['4', '0']) by {
        reveal_with_fuel(display::decimal, 3);
    }
    lemma_composite_label_0_parts();
}

proof fn lemma_composite_label_1_parts()
    ensures
        "2^50 (50 prime factors)"@ == "2^"@ + seq!['5', '0'] + " ("@ + seq!['5', '0'] + " prime factors)"@,
{
    reveal_strlit("2^50 (50 prime factors)");
    reveal_strlit("2^");
    reveal_strlit(" (");
    reveal_strlit(" prime factors)");
    assert("2^50 (50 prime factors)"@ =~= "2^"@ + seq!['5', '0'] + " ("@ + seq!['5', '0'] + " prime factors)"@);
}

proof fn lemma_composite_label_1()
    ensures
        "2^50 (50 prime factors)"@ == "2^"@ + display::decimal(50) + " ("@ + display::decimal(50) + " prime factors)"@,
{
    assert(display::decimal(50) =~= seq!['5', '0']) by {
        reveal_with_fuel(display::decimal, 3);
    }
    lemma_composite_label_1_parts();
}

proof fn lemma_composite_label_2_parts()
    ensures
        "2^63 (63 prime factors)"@ == "2^"@ + seq!['6', '3'] + " ("@ + seq!['6', '3'] + " prime factors)"@,
{
    reveal_strlit("2^63 (63 prime factors)");
    reveal_strlit("2^");
    reveal_strlit(" (");
    reveal_strlit(" prime factors)");
    assert("2^63 (63 prime factors)"@ =~= "2^"@ + seq!['6', '3'] + " ("@ + seq!['6', '3'] + " prime factors)"@);
}

proof fn lemma_composite_label_2()
    ensures
        "2^63 (63 prime factors)"@ == "2^"@ + display::decimal(63) + " ("@ + display::decimal(63) + " prime factors)"@,
{
    assert(display::decimal(63) =~= seq!['6', '3']) by {
        reveal_with_fuel(display::decimal, 3);
    }
    lemma_composite_label_2_parts();
}

proof fn lemma_composite_label_3_parts()
    ensures
        "20! (factorial, 36 prime factors)"@ == seq!['2', '0'] + "! (factorial, "@ + seq!['3', '6'] + " prime factors)"@,
{
    reveal_strlit("20! (factorial, 36 prime factors)");
    reveal_strlit("! (factorial, ");
    reveal_strlit(" prime factors)");
    assert("20! (factorial, 36 prime factors)"@ =~= seq!['2', '0'] + "! (factorial, "@ + seq!['3', '6'] + " prime factors)"@);
}

proof fn lemma_composite_label_3()
    ensures
        "20! (factorial, 36 prime factors)"@ == display::decimal(20) + "! (factorial, "@ + display::decimal(36) + " prime factors)"@,
{
    assert(display::decimal(20) =~= seq!['2', '0']) by {
        reveal_with_fuel(display::decimal, 3);
    }
    assert(display::decimal(36) =~= seq!['3', '6']) by {
        reveal_with_fuel(display::decimal, 3);
    }
    lemma_composite_label_3_parts();
}

proof fn lemma_text_1_0_parts()
    ensures
        seq!['2'] + seq!['^'] + seq!['3'] == seq!['2', '^', '3'],
{
    assert(seq!['2'] + seq!['^'] + seq!['3'] =~= seq!['2', '^', '3']);
}

proof fn lemma_text_1_0()
    ensures
        display::factors_text(suite_numbers::repeated(2, 3)) == seq!['2', '^', '3'],
{
    assert(display::decimal(2) =~= seq!['2']) by {
        reveal_with_fuel(display::decimal, 2);
    }
    display::law_grouped_small(2);
    assert(display::decimal(3) =~= seq!['3']) by {
        reveal_with_fuel(display::decimal, 2);
    }
    lemma_text_1_0_parts();
    lemma_first_power(2, seq!['2'], 3, seq!['3']);
}

proof fn lemma_text_1_1_parts()
    ensures
        seq!['2', '^', '3'] + seq![' ', '×', ' '] + seq!['3'] + seq!['^'] + seq!['3'] == seq!['2', '^', '3', ' ', '×', ' ', '3', '^', '3'],
{
    assert(seq!['2', '^', '3'] + seq![' ', '×', ' '] + seq!['3'] + seq!['^'] + seq!['3'] =~= seq!['2', '^', '3', ' ', '×', ' ', '3', '^', '3']);
}

proof fn lemma_text_1_1()
    ensures
        display::factors_text(suite_numbers::repeated(2, 3) + suite_numbers::repeated(3, 3)) == seq!['2', '^', '3', ' ', '×', ' ', '3', '^', '3'],
{
    lemma_text_1_0();
    assert(display::decimal(3) =~= seq!['3']) by {
        reveal_with_fuel(display::decimal, 2);
    }
    display::law_grouped_small(3);
    lemma_text_1_1_parts();
    lemma_next_power(suite_numbers::repeated(2, 3), seq!['2', '^', '3'], 3, seq!['3'], 3, seq!['3']);
}

proof fn lemma_text_1_2_parts()
    ensures
        seq!['2', '^', '3', ' ', '×', ' ', '3', '^', '3'] + seq![' ', '×', ' '] + seq!['5'] + seq!['^'] + seq!['3'] == seq!['2', '^', '3', ' ', '×', ' ', '3', '^', '3', ' ', '×', ' ', '5', '^', '3'],
{
    assert(seq!['2', '^', '3', ' ', '×', ' ', '3', '^', '3'] + seq![' ', '×', ' '] + seq!['5'] + seq!['^'] + seq!['3'] =~= seq!['2', '^', '3', ' ', '×', ' ', '3', '^', '3', ' ', '×', ' ', '5', '^', '3']);
}

proof fn lemma_text_1_2()
    ensures
        display::factors_text(suite_numbers::repeated(2, 3) + suite_numbers::repeated(3, 3) + suite_numbers::repeated(5, 3)) == seq!['2', '^', '3', ' ', '×', ' ', '3', '^', '3', ' ', '×', ' ', '5', '^', '3'],
{
    lemma_text_1_1();
    assert(display::decimal(5) =~= seq!['5']) by {
        reveal_with_fuel(display::decimal, 2);
    }
    display::law_grouped_small(5);
    assert(display::decimal(3) =~= seq!['3']) by {
        reveal_with_fuel(display::decimal, 2);
    }
    lemma_text_1_2_parts();
    lemma_next_power(suite_numbers::repeated(2, 3) + suite_numbers::repeated(3, 3), seq!['2', '^', '3', ' ', '×', ' ', '3', '^', '3'], 5, seq!['5'], 3, seq!['3']);
}

proof fn lemma_text_1_3_parts()
    ensures
        seq!['2', '^', '3', ' ', '×', ' ', '3', '^', '3', ' ', '×', ' ', '5', '^', '3'] + seq![' ', '×', ' '] + seq!['7'] + seq!['^'] + seq!['3'] == seq!['2', '^', '3', ' ', '×', ' ', '3', '^', '3', ' ', '×', ' ', '5', '^', '3', ' ', '×', ' ', '7', '^', '3'],
{
    assert(seq!['2', '^', '3', ' ', '×', ' ', '3', '^', '3', ' ', '×', ' ', '5', '^', '3'] + seq![' ', '×', ' '] + seq!['7'] + seq!['^'] + seq!['3'] =~= seq!['2', '^', '3', ' ', '×', ' ', '3', '^', '3', ' ', '×', ' ', '5', '^', '3', ' ', '×', ' ', '7', '^', '3']);
}

proof fn lemma_text_1_3()
    ensures
        display::factors_text(suite_numbers::repeated(2, 3) + suite_numbers::repeated(3, 3) + suite_numbers::repeated(5, 3) + suite_numbers::repeated(7, 3)) == seq!['2', '^', '3', ' ', '×', ' ', '3', '^', '3', ' ', '×', ' ', '5', '^', '3', ' ', '×', ' ', '7', '^', '3'],
{
    lemma_text_1_2();
    assert(display::decimal(7) =~= seq!['7']) by {
        reveal_with_fuel(display::decimal, 2);
    }
    display::law_grouped_small(7);
    assert(display::decimal(3) =~= seq!['3']) by {
        reveal_with_fuel(display::decimal, 2);
    }
    lemma_text_1_3_parts();
    lemma_next_power(suite_numbers::repeated(2, 3) + suite_numbers::repeated(3, 3) + suite_numbers::repeated(5, 3), seq!['2', '^', '3', ' ', '×', ' ', '3', '^', '3', ' ', '×', ' ', '5', '^', '3'], 7, seq!['7'], 3, seq!['3']);
}

proof fn lemma_text_1()
    ensures
        display::factors_text(seq![2nat, 2, 2, 3, 3, 3, 5, 5, 5, 7, 7, 7]) == seq!['2', '^', '3', ' ', '×', ' ', '3', '^', '3', ' ', '×', ' ', '5', '^', '3', ' ', '×', ' ', '7', '^', '3'],
{
    lemma_text_1_3();
    assert(suite_numbers::repeated(2, 3) + suite_numbers::repeated(3, 3) + suite_numbers::repeated(5, 3) + suite_numbers::repeated(7, 3) =~= seq![2nat, 2, 2, 3, 3, 3, 5, 5, 5, 7, 7, 7]);
}

proof fn lemma_composite_label_4_parts()
    ensures
        "2^3 × 3^3 × 5^3 × 7^3"@ == seq!['2', '^', '3', ' ', '×', ' ', '3', '^', '3', ' ', '×', ' ', '5', '^', '3', ' ', '×', ' ', '7', '^', '3'],
{
    reveal_strlit("2^3 × 3^3 × 5^3 × 7^3");
    assert("2^3 × 3^3 × 5^3 × 7^3"@ =~= seq!['2', '^', '3', ' ', '×', ' ', '3', '^', '3', ' ', '×', ' ', '5', '^', '3', ' ', '×', ' ', '7', '^', '3']);
}

proof fn lemma_composite_label_4()
    ensures
        "2^3 × 3^3 × 5^3 × 7^3"@ == display::factors_text(seq![2nat, 2, 2, 3, 3, 3, 5, 5, 5, 7, 7, 7]),
{
    lemma_text_1();
    lemma_composite_label_4_parts();
}

proof fn lemma_composite_label_5_parts()
    ensures
        "720,720 (highly composite, 10 factors)"@ == seq!['7', '2', '0', ',', '7', '2', '0'] + " (highly composite, "@ + seq!['1', '0'] + " factors)"@,
{
    reveal_strlit("720,720 (highly composite, 10 factors)");
    reveal_strlit(" (highly composite, ");
    reveal_strlit(" factors)");
    assert("720,720 (highly composite, 10 factors)"@ =~= seq!['7', '2', '0', ',', '7', '2', '0'] + " (highly composite, "@ + seq!['1', '0'] + " factors)"@);
}

proof fn lemma_composite_label_5()
    ensures
        "720,720 (highly composite, 10 factors)"@ == display::grouped(720_720) + " (highly composite, "@ + display::decimal(10) + " factors)"@,
{
    assert(display::decimal(720) =~= seq!['7', '2', '0']) by {
        reveal_with_fuel(display::decimal, 4);
    }
    display::law_grouped_small(720);
    display::law_grouped_step(720, 720);
    assert(display::grouped(720_720) =~= seq!['7', '2', '0', ',', '7', '2', '0']);
    assert(display::decimal(10) =~= seq!['1', '0']) by {
        reveal_with_fuel(display::decimal, 3);
    }
    lemma_composite_label_5_parts();
}

proof fn lemma_composite_label_6_parts()
    ensures
        "Product of first 15 primes"@ == "Product of first "@ + seq!['1', '5'] + " primes"@,
{
    reveal_strlit("Product of first 15 primes");
    reveal_strlit("Product of first ");
    reveal_strlit(" primes");
    assert("Product of first 15 primes"@ =~= "Product of first "@ + seq!['1', '5'] + " primes"@);
}

proof fn lemma_composite_label_6()
    ensures
        "Product of first 15 primes"@ == "Product of first "@ + display::decimal(15) + " primes"@,
{
    assert(display::decimal(15) =~= seq!['1', '5']) by {
        reveal_with_fuel(display::decimal, 3);
    }
    lemma_composite_label_6_parts();
}

proof fn lemma_text_2_0_parts()
    ensures
        seq!['2'] + seq!['^'] + seq!['2', '0'] == seq!['2', '^', '2', '0'],
{
    assert(seq!['2'] + seq!['^'] + seq!['2', '0'] =~= seq!['2', '^', '2', '0']);
}

proof fn lemma_text_2_0()
    ensures
        display::factors_text(suite_numbers::repeated(2, 20)) == seq!['2', '^', '2', '0'],
{
    assert(display::decimal(2) =~= seq!['2']) by {
        reveal_with_fuel(display::decimal, 2);
    }
    display::law_grouped_small(2);
    assert(display::decimal(20) =~= seq!['2', '0']) by {
        reveal_with_fuel(display::decimal, 3);
    }
    lemma_text_2_0_parts();
    lemma_first_power(2, seq!['2'], 20, seq!['2', '0']);
}

proof fn lemma_text_2_1_parts()
    ensures
        seq!['2', '^', '2', '0'] + seq![' ', '×', ' '] + seq!['3'] + seq!['^'] + seq!['1', '0'] == seq!['2', '^', '2', '0', ' ', '×', ' ', '3', '^', '1', '0'],
{
    assert(seq!['2', '^', '2', '0'] + seq![' ', '×', ' '] + seq!['3'] + seq!['^'] + seq!['1', '0'] =~= seq!['2', '^', '2', '0', ' ', '×', ' ', '3', '^', '1', '0']);
}

proof fn lemma_text_2_1()
    ensures
        display::factors_text(suite_numbers::repeated(2, 20) + suite_numbers::repeated(3, 10)) == seq!['2', '^', '2', '0', ' ', '×', ' ', '3', '^', '1', '0'],
{
    lemma_text_2_0();
    assert(display::decimal(3) =~= seq!['3']) by {
        reveal_with_fuel(display::decimal, 2);
    }
    display::law_grouped_small(3);
    assert(display::decimal(10) =~= seq!['1', '0']) by {
        reveal_with_fuel(display::decimal, 3);
    }
    lemma_text_2_1_parts();
    lemma_next_power(suite_numbers::repeated(2, 20), seq!['2', '^', '2', '0'], 3, seq!['3'], 10, seq!['1', '0']);
}

proof fn lemma_text_2_2_parts()
    ensures
        seq!['2', '^', '2', '0', ' ', '×', ' ', '3', '^', '1', '0'] + seq![' ', '×', ' '] + seq!['7'] + seq!['^'] + seq!['3'] == seq!['2', '^', '2', '0', ' ', '×', ' ', '3', '^', '1', '0', ' ', '×', ' ', '7', '^', '3'],
{
    assert(seq!['2', '^', '2', '0', ' ', '×', ' ', '3', '^', '1', '0'] + seq![' ', '×', ' '] + seq!['7'] + seq!['^'] + seq!['3'] =~= seq!['2', '^', '2', '0', ' ', '×', ' ', '3', '^', '1', '0', ' ', '×', ' ', '7', '^', '3']);
}

proof fn lemma_text_2_2()
    ensures
        display::factors_text(suite_numbers::repeated(2, 20) + suite_numbers::repeated(3, 10) + suite_numbers::repeated(7, 3)) == seq!['2', '^', '2', '0', ' ', '×', ' ', '3', '^', '1', '0', ' ', '×', ' ', '7', '^', '3'],
{
    lemma_text_2_1();
    assert(display::decimal(7) =~= seq!['7']) by {
        reveal_with_fuel(display::decimal, 2);
    }
    display::law_grouped_small(7);
    assert(display::decimal(3) =~= seq!['3']) by {
        reveal_with_fuel(display::decimal, 2);
    }
    lemma_text_2_2_parts();
    lemma_next_power(suite_numbers::repeated(2, 20) + suite_numbers::repeated(3, 10), seq!['2', '^', '2', '0', ' ', '×', ' ', '3', '^', '1', '0'], 7, seq!['7'], 3, seq!['3']);
}

proof fn lemma_text_2()
    ensures
        display::factors_text(suite_numbers::repeated(2, 20) + suite_numbers::repeated(3, 10) + seq![7nat, 7, 7]) == seq!['2', '^', '2', '0', ' ', '×', ' ', '3', '^', '1', '0', ' ', '×', ' ', '7', '^', '3'],
{
    lemma_text_2_2();
    assert(suite_numbers::repeated(2, 20) + suite_numbers::repeated(3, 10) + suite_numbers::repeated(7, 3) =~= suite_numbers::repeated(2, 20) + suite_numbers::repeated(3, 10) + seq![7nat, 7, 7]);
}

proof fn lemma_composite_label_7_parts()
    ensures
        "2^20 × 3^10 × 7^3"@ == seq!['2', '^', '2', '0', ' ', '×', ' ', '3', '^', '1', '0', ' ', '×', ' ', '7', '^', '3'],
{
    reveal_strlit("2^20 × 3^10 × 7^3");
    assert("2^20 × 3^10 × 7^3"@ =~= seq!['2', '^', '2', '0', ' ', '×', ' ', '3', '^', '1', '0', ' ', '×', ' ', '7', '^', '3']);
}

proof fn lemma_composite_label_7()
    ensures
        "2^20 × 3^10 × 7^3"@ == display::factors_text(suite_numbers::repeated(2, 20) + suite_numbers::repeated(3, 10) + seq![7nat, 7, 7]),
{
    lemma_text_2();
    lemma_composite_label_7_parts();
}

proof fn lemma_prime_label_0_parts()
    ensures
        "10^16 − 63 (16 digits)"@ == "10^"@ + seq!['1', '6'] + " − "@ + seq!['6', '3'] + " ("@ + seq!['1', '6'] + " digits)"@,
{
    reveal_strlit("10^16 − 63 (16 digits)");
    reveal_strlit("10^");
    reveal_strlit(" − ");
    reveal_strlit(" (");
    reveal_strlit(" digits)");
    assert("10^16 − 63 (16 digits)"@ =~= "10^"@ + seq!['1', '6'] + " − "@ + seq!['6', '3'] + " ("@ + seq!['1', '6'] + " digits)"@);
}

proof fn lemma_prime_label_0()
    ensures
        "10^16 − 63 (16 digits)"@ == "10^"@ + display::decimal(16) + " − "@ + display::decimal(63) + " ("@ + display::decimal(16) + " digits)"@,
{
    assert(display::decimal(16) =~= seq!['1', '6']) by {
        reveal_with_fuel(display::decimal, 3);
    }
    assert(display::decimal(63) =~= seq!['6', '3']) by {
        reveal_with_fuel(display::decimal, 3);
    }
    lemma_prime_label_0_parts();
}

proof fn lemma_prime_label_1_parts()
    ensures
        "10^15 − 11 (15 digits)"@ == "10^"@ + seq!['1', '5'] + " − "@ + seq!['1', '1'] + " ("@ + seq!['1', '5'] + " digits)"@,
{
    reveal_strlit("10^15 − 11 (15 digits)");
    reveal_strlit("10^");
    reveal_strlit(" − ");
    reveal_strlit(" (");
    reveal_strlit(" digits)");
    assert("10^15 − 11 (15 digits)"@ =~= "10^"@ + seq!['1', '5'] + " − "@ + seq!['1', '1'] + " ("@ + seq!['1', '5'] + " digits)"@);
}

proof fn lemma_prime_label_1()
    ensures
        "10^15 − 11 (15 digits)"@ == "10^"@ + display::decimal(15) + " − "@ + display::decimal(11) + " ("@ + display::decimal(15) + " digits)"@,
{
    assert(display::decimal(15) =~= seq!['1', '5']) by {
        reveal_with_fuel(display::decimal, 3);
    }
    assert(display::decimal(11) =~= seq!['1', '1']) by {
        reveal_with_fuel(display::decimal, 3);
    }
    lemma_prime_label_1_parts();
}

proof fn lemma_prime_label_2_parts()
    ensures
        "2^31 − 1 = Mersenne prime M31"@ == "2^"@ + seq!['3', '1'] + " − 1 = Mersenne prime M"@ + seq!['3', '1'],
{
    reveal_strlit("2^31 − 1 = Mersenne prime M31");
    reveal_strlit("2^");
    reveal_strlit(" − 1 = Mersenne prime M");
    assert("2^31 − 1 = Mersenne prime M31"@ =~= "2^"@ + seq!['3', '1'] + " − 1 = Mersenne prime M"@ + seq!['3', '1']);
}

proof fn lemma_prime_label_2()
    ensures
        "2^31 − 1 = Mersenne prime M31"@ == "2^"@ + display::decimal(31) + " − 1 = Mersenne prime M"@ + display::decimal(31),
{
    assert(display::decimal(31) =~= seq!['3', '1']) by {
        reveal_with_fuel(display::decimal, 3);
    }
    lemma_prime_label_2_parts();
}

proof fn lemma_prime_label_3_parts()
    ensures
        "10^12 + 39 (13 digits)"@ == "10^"@ + seq!['1', '2'] + " + "@ + seq!['3', '9'] + " ("@ + seq!['1', '3'] + " digits)"@,
{
    reveal_strlit("10^12 + 39 (13 digits)");
    reveal_strlit("10^");
    reveal_strlit(" + ");
    reveal_strlit(" (");
    reveal_strlit(" digits)");
    assert("10^12 + 39 (13 digits)"@ =~= "10^"@ + seq!['1', '2'] + " + "@ + seq!['3', '9'] + " ("@ + seq!['1', '3'] + " digits)"@);
}

proof fn lemma_prime_label_3()
    ensures
        "10^12 + 39 (13 digits)"@ == "10^"@ + display::decimal(12) + " + "@ + display::decimal(39) + " ("@ + display::decimal(13) + " digits)"@,
{
    assert(display::decimal(12) =~= seq!['1', '2']) by {
        reveal_with_fuel(display::decimal, 3);
    }
    assert(display::decimal(39) =~= seq!['3', '9']) by {
        reveal_with_fuel(display::decimal, 3);
    }
    assert(display::decimal(13) =~= seq!['1', '3']) by {
        reveal_with_fuel(display::decimal, 3);
    }
    lemma_prime_label_3_parts();
}

proof fn lemma_prime_label_4_parts()
    ensures
        "~10^18 (18 digits, verified prime)"@ == "~10^"@ + seq!['1', '8'] + " ("@ + seq!['1', '8'] + " digits, verified prime)"@,
{
    reveal_strlit("~10^18 (18 digits, verified prime)");
    reveal_strlit("~10^");
    reveal_strlit(" (");
    reveal_strlit(" digits, verified prime)");
    assert("~10^18 (18 digits, verified prime)"@ =~= "~10^"@ + seq!['1', '8'] + " ("@ + seq!['1', '8'] + " digits, verified prime)"@);
}

proof fn lemma_prime_label_4()
    ensures
        "~10^18 (18 digits, verified prime)"@ == "~10^"@ + display::decimal(18) + " ("@ + display::decimal(18) + " digits, verified prime)"@,
{
    assert(display::decimal(18) =~= seq!['1', '8']) by {
        reveal_with_fuel(display::decimal, 3);
    }
    lemma_prime_label_4_parts();
}

proof fn lemma_prime_label_5_parts()
    ensures
        "10^18 − 11 (18 digits)"@ == "10^"@ + seq!['1', '8'] + " − "@ + seq!['1', '1'] + " ("@ + seq!['1', '8'] + " digits)"@,
{
    reveal_strlit("10^18 − 11 (18 digits)");
    reveal_strlit("10^");
    reveal_strlit(" − ");
    reveal_strlit(" (");
    reveal_strlit(" digits)");
    assert("10^18 − 11 (18 digits)"@ =~= "10^"@ + seq!['1', '8'] + " − "@ + seq!['1', '1'] + " ("@ + seq!['1', '8'] + " digits)"@);
}

proof fn lemma_prime_label_5()
    ensures
        "10^18 − 11 (18 digits)"@ == "10^"@ + display::decimal(18) + " − "@ + display::decimal(11) + " ("@ + display::decimal(18) + " digits)"@,
{
    assert(display::decimal(18) =~= seq!['1', '8']) by {
        reveal_with_fuel(display::decimal, 3);
    }
    assert(display::decimal(11) =~= seq!['1', '1']) by {
        reveal_with_fuel(display::decimal, 3);
    }
    lemma_prime_label_5_parts();
}

proof fn lemma_text_3_0()
    ensures
        display::factors_text(suite_numbers::repeated(97, 1)) == seq!['9', '7'],
{
    assert(display::decimal(97) =~= seq!['9', '7']) by {
        reveal_with_fuel(display::decimal, 3);
    }
    display::law_grouped_small(97);
    lemma_first_factor(97, seq!['9', '7']);
}

proof fn lemma_text_3_1_parts()
    ensures
        seq!['9', '7'] + seq![' ', '×', ' '] + seq!['9', '9', ',', '9', '8', '9'] == seq!['9', '7', ' ', '×', ' ', '9', '9', ',', '9', '8', '9'],
{
    assert(seq!['9', '7'] + seq![' ', '×', ' '] + seq!['9', '9', ',', '9', '8', '9'] =~= seq!['9', '7', ' ', '×', ' ', '9', '9', ',', '9', '8', '9']);
}

proof fn lemma_text_3_1()
    ensures
        display::factors_text(suite_numbers::repeated(97, 1) + suite_numbers::repeated(99_989, 1)) == seq!['9', '7', ' ', '×', ' ', '9', '9', ',', '9', '8', '9'],
{
    lemma_text_3_0();
    assert(display::decimal(99) =~= seq!['9', '9']) by {
        reveal_with_fuel(display::decimal, 3);
    }
    display::law_grouped_small(99);
    display::law_grouped_step(99, 989);
    assert(display::grouped(99_989) =~= seq!['9', '9', ',', '9', '8', '9']);
    lemma_text_3_1_parts();
    lemma_next_factor(suite_numbers::repeated(97, 1), seq!['9', '7'], 99_989, seq!['9', '9', ',', '9', '8', '9']);
}

proof fn lemma_text_3_2_parts()
    ensures
        seq!['9', '7', ' ', '×', ' ', '9', '9', ',', '9', '8', '9'] + seq![' ', '×', ' '] + seq!['9', '9', ',', '9', '9', '1'] == seq!['9', '7', ' ', '×', ' ', '9', '9', ',', '9', '8', '9', ' ', '×', ' ', '9', '9', ',', '9', '9', '1'],
{
    assert(seq!['9', '7', ' ', '×', ' ', '9', '9', ',', '9', '8', '9'] + seq![' ', '×', ' '] + seq!['9', '9', ',', '9', '9', '1'] =~= seq!['9', '7', ' ', '×', ' ', '9', '9', ',', '9', '8', '9', ' ', '×', ' ', '9', '9', ',', '9', '9', '1']);
}

proof fn lemma_text_3_2()
    ensures
        display::factors_text(suite_numbers::repeated(97, 1) + suite_numbers::repeated(99_989, 1) + suite_numbers::repeated(99_991, 1)) == seq!['9', '7', ' ', '×', ' ', '9', '9', ',', '9', '8', '9', ' ', '×', ' ', '9', '9', ',', '9', '9', '1'],
{
    lemma_text_3_1();
    assert(display::decimal(99) =~= seq!['9', '9']) by {
        reveal_with_fuel(display::decimal, 3);
    }
    display::law_grouped_small(99);
    display::law_grouped_step(99, 991);
    assert(display::grouped(99_991) =~= seq!['9', '9', ',', '9', '9', '1']);
    lemma_text_3_2_parts();
    lemma_next_factor(suite_numbers::repeated(97, 1) + suite_numbers::repeated(99_989, 1), seq!['9', '7', ' ', '×', ' ', '9', '9', ',', '9', '8', '9'], 99_991, seq!['9', '9', ',', '9', '9', '1']);
}

proof fn lemma_text_3()
    ensures
        display::factors_text(seq![97nat, 99_989, 99_991]) == seq!['9', '7', ' ', '×', ' ', '9', '9', ',', '9', '8', '9', ' ', '×', ' ', '9', '9', ',', '9', '9', '1'],
{
    lemma_text_3_2();
    assert(suite_numbers::repeated(97, 1) + suite_numbers::repeated(99_989, 1) + suite_numbers::repeated(99_991, 1) =~= seq![97nat, 99_989, 99_991]);
}

proof fn lemma_mixed_label_0_parts()
    ensures
        "97 × 99,989 × 99,991 (3 primes)"@ == seq!['9', '7', ' ', '×', ' ', '9', '9', ',', '9', '8', '9', ' ', '×', ' ', '9', '9', ',', '9', '9', '1'] + " ("@ + seq!['3'] + " primes)"@,
{
    reveal_strlit("97 × 99,989 × 99,991 (3 primes)");
    reveal_strlit(" (");
    reveal_strlit(" primes)");
    assert("97 × 99,989 × 99,991 (3 primes)"@ =~= seq!['9', '7', ' ', '×', ' ', '9', '9', ',', '9', '8', '9', ' ', '×', ' ', '9', '9', ',', '9', '9', '1'] + " ("@ + seq!['3'] + " primes)"@);
}

proof fn lemma_mixed_label_0()
    ensures
        "97 × 99,989 × 99,991 (3 primes)"@ == display::factors_text(seq![97nat, 99_989, 99_991]) + " ("@ + display::decimal(3) + " primes)"@,
{
    lemma_text_3();
    assert(display::decimal(3) =~= seq!['3']) by {
        reveal_with_fuel(display::decimal, 2);
    }
    lemma_mixed_label_0_parts();
}

proof fn lemma_mixed_label_1_parts()
    ensures
        "29 × (10^15 − 11) (small × large prime)"@ == seq!['2', '9'] + " × (10^"@ + seq!['1', '5'] + " − "@ + seq!['1', '1'] + ") (small × large prime)"@,
{
    reveal_strlit("29 × (10^15 − 11) (small × large prime)");
    reveal_strlit(" × (10^");
    reveal_strlit(" − ");
    reveal_strlit(") (small × large prime)");
    assert("29 × (10^15 − 11) (small × large prime)"@ =~= seq!['2', '9'] + " × (10^"@ + seq!['1', '5'] + " − "@ + seq!['1', '1'] + ") (small × large prime)"@);
}

proof fn lemma_mixed_label_1()
    ensures
        "29 × (10^15 − 11) (small × large prime)"@ == display::grouped(29) + " × (10^"@ + display::decimal(15) + " − "@ + display::decimal(11) + ") (small × large prime)"@,
{
    assert(display::decimal(29) =~= seq!['2', '9']) by {
        reveal_with_fuel(display::decimal, 3);
    }
    display::law_grouped_small(29);
    assert(display::decimal(15) =~= seq!['1', '5']) by {
        reveal_with_fuel(display::decimal, 3);
    }
    assert(display::decimal(11) =~= seq!['1', '1']) by {
        reveal_with_fuel(display::decimal, 3);
    }
    lemma_mixed_label_1_parts();
}

proof fn lemma_text_4_0_parts()
    ensures
        seq!['7'] + seq!['^'] + seq!['1', '9'] == seq!['7', '^', '1', '9'],
{
    assert(seq!['7'] + seq!['^'] + seq!['1', '9'] =~= seq!['7', '^', '1', '9']);
}

proof fn lemma_text_4_0()
    ensures
        display::factors_text(suite_numbers::repeated(7, 19)) == seq!['7', '^', '1', '9'],
{
    assert(display::decimal(7) =~= seq!['7']) by {
        reveal_with_fuel(display::decimal, 2);
    }
    display::law_grouped_small(7);
    assert(display::decimal(19) =~= seq!['1', '9']) by {
        reveal_with_fuel(display::decimal, 3);
    }
    lemma_text_4_0_parts();
    lemma_first_power(7, seq!['7'], 19, seq!['1', '9']);
}

proof fn lemma_text_4()
    ensures
        display::factors_text(suite_numbers::repeated(7, 19)) == seq!['7', '^', '1', '9'],
{
    lemma_text_4_0();
    assert(suite_numbers::repeated(7, 19) =~= suite_numbers::repeated(7, 19));
}

proof fn lemma_mixed_label_2_parts()
    ensures
        "7^19 (large prime power)"@ == seq!['7', '^', '1', '9'] + " (large prime power)"@,
{
    reveal_strlit("7^19 (large prime power)");
    reveal_strlit(" (large prime power)");
    assert("7^19 (large prime power)"@ =~= seq!['7', '^', '1', '9'] + " (large prime power)"@);
}

proof fn lemma_mixed_label_2()
    ensures
        "7^19 (large prime power)"@ == display::factors_text(suite_numbers::repeated(7, 19)) + " (large prime power)"@,
{
    lemma_text_4();
    lemma_mixed_label_2_parts();
}

proof fn lemma_mixed_label_3_parts()
    ensures
        "RSA-like: 99,999,959 × 99,999,941"@ == "RSA-like: "@ + seq!['9', '9', ',', '9', '9', '9', ',', '9', '5', '9'] + " × "@ + seq!['9', '9', ',', '9', '9', '9', ',', '9', '4', '1'],
{
    reveal_strlit("RSA-like: 99,999,959 × 99,999,941");
    reveal_strlit("RSA-like: ");
    reveal_strlit(" × ");
    assert("RSA-like: 99,999,959 × 99,999,941"@ =~= "RSA-like: "@ + seq!['9', '9', ',', '9', '9', '9', ',', '9', '5', '9'] + " × "@ + seq!['9', '9', ',', '9', '9', '9', ',', '9', '4', '1']);
}

proof fn lemma_mixed_label_3()
    ensures
        "RSA-like: 99,999,959 × 99,999,941"@ == "RSA-like: "@ + display::grouped(99_999_959) + " × "@ + display::grouped(99_999_941),
{
    assert(display::decimal(99) =~= seq!['9', '9']) by {
        reveal_with_fuel(display::decimal, 3);
    }
    display::law_grouped_small(99);
    display::law_grouped_step(99, 999);
    assert(display::grouped(99_999) =~= seq!['9', '9', ',', '9', '9', '9']);
    display::law_grouped_step(99_999, 959);
    assert(display::grouped(99_999_959) =~= seq!['9', '9', ',', '9', '9', '9', ',', '9', '5', '9']);
    display::law_grouped_step(99_999, 941);
    assert(display::grouped(99_999_941) =~= seq!['9', '9', ',', '9', '9', '9', ',', '9', '4', '1']);
    lemma_mixed_label_3_parts();
}

proof fn lemma_mixed_label_4_parts()
    ensures
        "M31² = (2^31 − 1)² (Mersenne squared)"@ == "M"@ + seq!['3', '1'] + "² = (2^"@ + seq!['3', '1'] + " − 1)² (Mersenne squared)"@,
{
    reveal_strlit("M31² = (2^31 − 1)² (Mersenne squared)");
    reveal_strlit("M");
    reveal_strlit("² = (2^");
    reveal_strlit(" − 1)² (Mersenne squared)");
    assert("M31² = (2^31 − 1)² (Mersenne squared)"@ =~= "M"@ + seq!['3', '1'] + "² = (2^"@ + seq!['3', '1'] + " − 1)² (Mersenne squared)"@);
}

proof fn lemma_mixed_label_4()
    ensures
        "M31² = (2^31 − 1)² (Mersenne squared)"@ == "M"@ + display::decimal(31) + "² = (2^"@ + display::decimal(31) + " − 1)² (Mersenne squared)"@,
{
    assert(display::decimal(31) =~= seq!['3', '1']) by {
        reveal_with_fuel(display::decimal, 3);
    }
    lemma_mixed_label_4_parts();
}

proof fn lemma_mixed_label_5_parts()
    ensures
        "Fibonacci(44) = 701,408,733"@ == "Fibonacci("@ + seq!['4', '4'] + ") = "@ + seq!['7', '0', '1', ',', '4', '0', '8', ',', '7', '3', '3'],
{
    reveal_strlit("Fibonacci(44) = 701,408,733");
    reveal_strlit("Fibonacci(");
    reveal_strlit(") = ");
    assert("Fibonacci(44) = 701,408,733"@ =~= "Fibonacci("@ + seq!['4', '4'] + ") = "@ + seq!['7', '0', '1', ',', '4', '0', '8', ',', '7', '3', '3']);
}

proof fn lemma_mixed_label_5()
    ensures
        "Fibonacci(44) = 701,408,733"@ == "Fibonacci("@ + display::decimal(44) + ") = "@ + display::grouped(701_408_733),
{
    assert(display::decimal(44) =~= seq!['4', '4']) by {
        reveal_with_fuel(display::decimal, 3);
    }
    assert(display::decimal(701) =~= seq!['7', '0', '1']) by {
        reveal_with_fuel(display::decimal, 4);
    }
    display::law_grouped_small(701);
    display::law_grouped_step(701, 408);
    assert(display::grouped(701_408) =~= seq!['7', '0', '1', ',', '4', '0', '8']);
    display::law_grouped_step(701_408, 733);
    assert(display::grouped(701_408_733) =~= seq!['7', '0', '1', ',', '4', '0', '8', ',', '7', '3', '3']);
    lemma_mixed_label_5_parts();
}

proof fn lemma_text_5_0_parts()
    ensures
        seq!['2'] + seq!['^'] + seq!['1', '8'] == seq!['2', '^', '1', '8'],
{
    assert(seq!['2'] + seq!['^'] + seq!['1', '8'] =~= seq!['2', '^', '1', '8']);
}

proof fn lemma_text_5_0()
    ensures
        display::factors_text(suite_numbers::repeated(2, 18)) == seq!['2', '^', '1', '8'],
{
    assert(display::decimal(2) =~= seq!['2']) by {
        reveal_with_fuel(display::decimal, 2);
    }
    display::law_grouped_small(2);
    assert(display::decimal(18) =~= seq!['1', '8']) by {
        reveal_with_fuel(display::decimal, 3);
    }
    lemma_text_5_0_parts();
    lemma_first_power(2, seq!['2'], 18, seq!['1', '8']);
}

proof fn lemma_text_5_1_parts()
    ensures
        seq!['2', '^', '1', '8'] + seq![' ', '×', ' '] + seq!['5'] + seq!['^'] + seq!['1', '8'] == seq!['2', '^', '1', '8', ' ', '×', ' ', '5', '^', '1', '8'],
{
    assert(seq!['2', '^', '1', '8'] + seq![' ', '×', ' '] + seq!['5'] + seq!['^'] + seq!['1', '8'] =~= seq!['2', '^', '1', '8', ' ', '×', ' ', '5', '^', '1', '8']);
}

proof fn lemma_text_5_1()
    ensures
        display::factors_text(suite_numbers::repeated(2, 18) + suite_numbers::repeated(5, 18)) == seq!['2', '^', '1', '8', ' ', '×', ' ', '5', '^', '1', '8'],
{
    lemma_text_5_0();
    assert(display::decimal(5) =~= seq!['5']) by {
        reveal_with_fuel(display::decimal, 2);
    }
    display::law_grouped_small(5);
    assert(display::decimal(18) =~= seq!['1', '8']) by {
        reveal_with_fuel(display::decimal, 3);
    }
    lemma_text_5_1_parts();
    lemma_next_power(suite_numbers::repeated(2, 18), seq!['2', '^', '1', '8'], 5, seq!['5'], 18, seq!['1', '8']);
}

proof fn lemma_text_5()
    ensures
        display::factors_text(suite_numbers::repeated(2, 18) + suite_numbers::repeated(5, 18)) == seq!['2', '^', '1', '8', ' ', '×', ' ', '5', '^', '1', '8'],
{
    lemma_text_5_1();
    assert(suite_numbers::repeated(2, 18) + suite_numbers::repeated(5, 18) =~= suite_numbers::repeated(2, 18) + suite_numbers::repeated(5, 18));
}

proof fn lemma_mixed_label_6_parts()
    ensures
        "10^18 = 2^18 × 5^18 (power of 10)"@ == "10^"@ + seq!['1', '8'] + " = "@ + seq!['2', '^', '1', '8', ' ', '×', ' ', '5', '^', '1', '8'] + " (power of 10)"@,
{
    reveal_strlit("10^18 = 2^18 × 5^18 (power of 10)");
    reveal_strlit("10^");
    reveal_strlit(" = ");
    reveal_strlit(" (power of 10)");
    assert("10^18 = 2^18 × 5^18 (power of 10)"@ =~= "10^"@ + seq!['1', '8'] + " = "@ + seq!['2', '^', '1', '8', ' ', '×', ' ', '5', '^', '1', '8'] + " (power of 10)"@);
}

proof fn lemma_mixed_label_6()
    ensures
        "10^18 = 2^18 × 5^18 (power of 10)"@ == "10^"@ + display::decimal(18) + " = "@ + display::factors_text(suite_numbers::repeated(2, 18) + suite_numbers::repeated(5, 18)) + " (power of 10)"@,
{
    assert(display::decimal(18) =~= seq!['1', '8']) by {
        reveal_with_fuel(display::decimal, 3);
    }
    lemma_text_5();
    lemma_mixed_label_6_parts();
}

proof fn lemma_text_6_0()
    ensures
        display::factors_text(suite_numbers::repeated(3, 1)) == seq!['3'],
{
    assert(display::decimal(3) =~= seq!['3']) by {
        reveal_with_fuel(display::decimal, 2);
    }
    display::law_grouped_small(3);
    lemma_first_factor(3, seq!['3']);
}

proof fn lemma_text_6_1_parts()
    ensures
        seq!['3'] + seq![' ', '×', ' '] + seq!['1', '1'] == seq!['3', ' ', '×', ' ', '1', '1'],
{
    assert(seq!['3'] + seq![' ', '×', ' '] + seq!['1', '1'] =~= seq!['3', ' ', '×', ' ', '1', '1']);
}

proof fn lemma_text_6_1()
    ensures
        display::factors_text(suite_numbers::repeated(3, 1) + suite_numbers::repeated(11, 1)) == seq!['3', ' ', '×', ' ', '1', '1'],
{
    lemma_text_6_0();
    assert(display::decimal(11) =~= seq!['1', '1']) by {
        reveal_with_fuel(display::decimal, 3);
    }
    display::law_grouped_small(11);
    lemma_text_6_1_parts();
    lemma_next_factor(suite_numbers::repeated(3, 1), seq!['3'], 11, seq!['1', '1']);
}

proof fn lemma_text_6_2_parts()
    ensures
        seq!['3', ' ', '×', ' ', '1', '1'] + seq![' ', '×', ' '] + seq!['1', '7'] == seq!['3', ' ', '×', ' ', '1', '1', ' ', '×', ' ', '1', '7'],
{
    assert(seq!['3', ' ', '×', ' ', '1', '1'] + seq![' ', '×', ' '] + seq!['1', '7'] =~= seq!['3', ' ', '×', ' ', '1', '1', ' ', '×', ' ', '1', '7']);
}

proof fn lemma_text_6_2()
    ensures
        display::factors_text(suite_numbers::repeated(3, 1) + suite_numbers::repeated(11, 1) + suite_numbers::repeated(17, 1)) == seq!['3', ' ', '×', ' ', '1', '1', ' ', '×', ' ', '1', '7'],
{
    lemma_text_6_1();
    assert(display::decimal(17) =~= seq!['1', '7']) by {
        reveal_with_fuel(display::decimal, 3);
    }
    display::law_grouped_small(17);
    lemma_text_6_2_parts();
    lemma_next_factor(suite_numbers::repeated(3, 1) + suite_numbers::repeated(11, 1), seq!['3', ' ', '×', ' ', '1', '1'], 17, seq!['1', '7']);
}

proof fn lemma_text_6()
    ensures
        display::factors_text(seq![3nat, 11, 17]) == seq!['3', ' ', '×', ' ', '1', '1', ' ', '×', ' ', '1', '7'],
{
    lemma_text_6_2();
    assert(suite_numbers::repeated(3, 1) + suite_numbers::repeated(11, 1) + suite_numbers::repeated(17, 1) =~= seq![3nat, 11, 17]);
}

proof fn lemma_mixed_label_7_parts()
    ensures
        "Carmichael number: 561 = 3 × 11 × 17"@ == "Carmichael number: "@ + seq!['5', '6', '1'] + " = "@ + seq!['3', ' ', '×', ' ', '1', '1', ' ', '×', ' ', '1', '7'],
{
    reveal_strlit("Carmichael number: 561 = 3 × 11 × 17");
    reveal_strlit("Carmichael number: ");
    reveal_strlit(" = ");
    assert("Carmichael number: 561 = 3 × 11 × 17"@ =~= "Carmichael number: "@ + seq!['5', '6', '1'] + " = "@ + seq!['3', ' ', '×', ' ', '1', '1', ' ', '×', ' ', '1', '7']);
}

proof fn lemma_mixed_label_7()
    ensures
        "Carmichael number: 561 = 3 × 11 × 17"@ == "Carmichael number: "@ + display::grouped(561) + " = "@ + display::factors_text(seq![3nat, 11, 17]),
{
    assert(display::decimal(561) =~= seq!['5', '6', '1']) by {
        reveal_with_fuel(display::decimal, 4);
    }
    display::law_grouped_small(561);
    lemma_text_6();
    lemma_mixed_label_7_parts();
}

proof fn lemma_edge_label_0_parts()
    ensures
        "Smallest prime: 2"@ == "Smallest prime: "@ + seq!['2'],
{
    reveal_strlit("Smallest prime: 2");
    reveal_strlit("Smallest prime: ");
    assert("Smallest prime: 2"@ =~= "Smallest prime: "@ + seq!['2']);
}

proof fn lemma_edge_label_0()
    ensures
        "Smallest prime: 2"@ == "Smallest prime: "@ + display::grouped(2),
{
    assert(display::decimal(2) =~= seq!['2']) by {
        reveal_with_fuel(display::decimal, 2);
    }
    display::law_grouped_small(2);
    lemma_edge_label_0_parts();
}

proof fn lemma_edge_label_1_parts()
    ensures
        "Largest single-digit prime: 7"@ == "Largest single-digit prime: "@ + seq!['7'],
{
    reveal_strlit("Largest single-digit prime: 7");
    reveal_strlit("Largest single-digit prime: ");
    assert("Largest single-digit prime: 7"@ =~= "Largest single-digit prime: "@ + seq!['7']);
}

proof fn lemma_edge_label_1()
    ensures
        "Largest single-digit prime: 7"@ == "Largest single-digit prime: "@ + display::grouped(7),
{
    assert(display::decimal(7) =~= seq!['7']) by {
        reveal_with_fuel(display::decimal, 2);
    }
    display::law_grouped_small(7);
    lemma_edge_label_1_parts();
}

proof fn lemma_text_7_0()
    ensures
        display::factors_text(suite_numbers::repeated(7, 1)) == seq!['7'],
{
    assert(display::decimal(7) =~= seq!['7']) by {
        reveal_with_fuel(display::decimal, 2);
    }
    display::law_grouped_small(7);
    lemma_first_factor(7, seq!['7']);
}

proof fn lemma_text_7_1_parts()
    ensures
        seq!['7'] + seq![' ', '×', ' '] + seq!['1', '1'] == seq!['7', ' ', '×', ' ', '1', '1'],
{
    assert(seq!['7'] + seq![' ', '×', ' '] + seq!['1', '1'] =~= seq!['7', ' ', '×', ' ', '1', '1']);
}

proof fn lemma_text_7_1()
    ensures
        display::factors_text(suite_numbers::repeated(7, 1) + suite_numbers::repeated(11, 1)) == seq!['7', ' ', '×', ' ', '1', '1'],
{
    lemma_text_7_0();
    assert(display::decimal(11) =~= seq!['1', '1']) by {
        reveal_with_fuel(display::decimal, 3);
    }
    display::law_grouped_small(11);
    lemma_text_7_1_parts();
    lemma_next_factor(suite_numbers::repeated(7, 1), seq!['7'], 11, seq!['1', '1']);
}

proof fn lemma_text_7_2_parts()
    ensures
        seq!['7', ' ', '×', ' ', '1', '1'] + seq![' ', '×', ' '] + seq!['1', '3'] == seq!['7', ' ', '×', ' ', '1', '1', ' ', '×', ' ', '1', '3'],
{
    assert(seq!['7', ' ', '×', ' ', '1', '1'] + seq![' ', '×', ' '] + seq!['1', '3'] =~= seq!['7', ' ', '×', ' ', '1', '1', ' ', '×', ' ', '1', '3']);
}

proof fn lemma_text_7_2()
    ensures
        display::factors_text(suite_numbers::repeated(7, 1) + suite_numbers::repeated(11, 1) + suite_numbers::repeated(13, 1)) == seq!['7', ' ', '×', ' ', '1', '1', ' ', '×', ' ', '1', '3'],
{
    lemma_text_7_1();
    assert(display::decimal(13) =~= seq!['1', '3']) by {
        reveal_with_fuel(display::decimal, 3);
    }
    display::law_grouped_small(13);
    lemma_text_7_2_parts();
    lemma_next_factor(suite_numbers::repeated(7, 1) + suite_numbers::repeated(11, 1), seq!['7', ' ', '×', ' ', '1', '1'], 13, seq!['1', '3']);
}

proof fn lemma_text_7_3_parts()
    ensures
        seq!['7', ' ', '×', ' ', '1', '1', ' ', '×', ' ', '1', '3'] + seq![' ', '×', ' '] + seq!['4', '1'] == seq!['7', ' ', '×', ' ', '1', '1', ' ', '×', ' ', '1', '3', ' ', '×', ' ', '4', '1'],
{
    assert(seq!['7', ' ', '×', ' ', '1', '1', ' ', '×', ' ', '1', '3'] + seq![' ', '×', ' '] + seq!['4', '1'] =~= seq!['7', ' ', '×', ' ', '1', '1', ' ', '×', ' ', '1', '3', ' ', '×', ' ', '4', '1']);
}

proof fn lemma_text_7_3()
    ensures
        display::factors_text(suite_numbers::repeated(7, 1) + suite_numbers::repeated(11, 1) + suite_numbers::repeated(13, 1) + suite_numbers::repeated(41, 1)) == seq!['7', ' ', '×', ' ', '1', '1', ' ', '×', ' ', '1', '3', ' ', '×', ' ', '4', '1'],
{
    lemma_text_7_2();
    assert(display::decimal(41) =~= seq!['4', '1']) by {
        reveal_with_fuel(display::decimal, 3);
    }
    display::law_grouped_small(41);
    lemma_text_7_3_parts();
    lemma_next_factor(suite_numbers::repeated(7, 1) + suite_numbers::repeated(11, 1) + suite_numbers::repeated(13, 1), seq!['7', ' ', '×', ' ', '1', '1', ' ', '×', ' ', '1', '3'], 41, seq!['4', '1']);
}

proof fn lemma_text_7()
    ensures
        display::factors_text(seq![7nat, 11, 13, 41]) == seq!['7', ' ', '×', ' ', '1', '1', ' ', '×', ' ', '1', '3', ' ', '×', ' ', '4', '1'],
{
    lemma_text_7_3();
    assert(suite_numbers::repeated(7, 1) + suite_numbers::repeated(11, 1) + suite_numbers::repeated(13, 1) + suite_numbers::repeated(41, 1) =~= seq![7nat, 11, 13, 41]);
}

proof fn lemma_edge_label_2_parts()
    ensures
        "Large Carmichael: 41,041 = 7 × 11 × 13 × 41"@ == "Large Carmichael: "@ + seq!['4', '1', ',', '0', '4', '1'] + " = "@ + seq!['7', ' ', '×', ' ', '1', '1', ' ', '×', ' ', '1', '3', ' ', '×', ' ', '4', '1'],
{
    reveal_strlit("Large Carmichael: 41,041 = 7 × 11 × 13 × 41");
    reveal_strlit("Large Carmichael: ");
    reveal_strlit(" = ");
    assert("Large Carmichael: 41,041 = 7 × 11 × 13 × 41"@ =~= "Large Carmichael: "@ + seq!['4', '1', ',', '0', '4', '1'] + " = "@ + seq!['7', ' ', '×', ' ', '1', '1', ' ', '×', ' ', '1', '3', ' ', '×', ' ', '4', '1']);
}

proof fn lemma_edge_label_2()
    ensures
        "Large Carmichael: 41,041 = 7 × 11 × 13 × 41"@ == "Large Carmichael: "@ + display::grouped(41_041) + " = "@ + display::factors_text(seq![7nat, 11, 13, 41]),
{
    assert(display::decimal(41) =~= seq!['4', '1']) by {
        reveal_with_fuel(display::decimal, 3);
    }
    display::law_grouped_small(41);
    display::law_grouped_step(41, 41);
    assert(display::grouped(41_041) =~= seq!['4', '1', ',', '0', '4', '1']);
    lemma_text_7();
    lemma_edge_label_2_parts();
}

proof fn lemma_edge_label_3_parts()
    ensures
        "10^16 − 64 (adjacent to known prime)"@ == "10^"@ + seq!['1', '6'] + " − "@ + seq!['6', '4'] + " (adjacent to known prime)"@,
{
    reveal_strlit("10^16 − 64 (adjacent to known prime)");
    reveal_strlit("10^");
    reveal_strlit(" − ");
    reveal_strlit(" (adjacent to known prime)");
    assert("10^16 − 64 (adjacent to known prime)"@ =~= "10^"@ + seq!['1', '6'] + " − "@ + seq!['6', '4'] + " (adjacent to known prime)"@);
}

proof fn lemma_edge_label_3()
    ensures
        "10^16 − 64 (adjacent to known prime)"@ == "10^"@ + display::decimal(16) + " − "@ + display::decimal(64) + " (adjacent to known prime)"@,
{
    assert(display::decimal(16) =~= seq!['1', '6']) by {
        reveal_with_fuel(display::decimal, 3);
    }
    assert(display::decimal(64) =~= seq!['6', '4']) by {
        reveal_with_fuel(display::decimal, 3);
    }
    lemma_edge_label_3_parts();
}

proof fn lemma_edge_label_4_parts()
    ensures
        "2^59 − 1 (composite Mersenne)"@ == "2^"@ + seq!['5', '9'] + " − 1 (composite Mersenne)"@,
{
    reveal_strlit("2^59 − 1 (composite Mersenne)");
    reveal_strlit("2^");
    reveal_strlit(" − 1 (composite Mersenne)");
    assert("2^59 − 1 (composite Mersenne)"@ =~= "2^"@ + seq!['5', '9'] + " − 1 (composite Mersenne)"@);
}

proof fn lemma_edge_label_4()
    ensures
        "2^59 − 1 (composite Mersenne)"@ == "2^"@ + display::decimal(59) + " − 1 (composite Mersenne)"@,
{
    assert(display::decimal(59) =~= seq!['5', '9']) by {
        reveal_with_fuel(display::decimal, 3);
    }
    lemma_edge_label_4_parts();
}

proof fn lemma_edge_label_5_parts()
    ensures
        "Perfect cube: 9,261³ = 3³ × 7³ × 7³... (deep recursion)"@ == "Perfect cube: "@ + seq!['9', ',', '2', '6', '1'] + "³ = 3³ × 7³ × 7³... (deep recursion)"@,
{
    reveal_strlit("Perfect cube: 9,261³ = 3³ × 7³ × 7³... (deep recursion)");
    reveal_strlit("Perfect cube: ");
    reveal_strlit("³ = 3³ × 7³ × 7³... (deep recursion)");
    assert("Perfect cube: 9,261³ = 3³ × 7³ × 7³... (deep recursion)"@ =~= "Perfect cube: "@ + seq!['9', ',', '2', '6', '1'] + "³ = 3³ × 7³ × 7³... (deep recursion)"@);
}

proof fn lemma_edge_label_5()
    ensures
        "Perfect cube: 9,261³ = 3³ × 7³ × 7³... (deep recursion)"@ == "Perfect cube: "@ + display::grouped(9_261) + "³ = 3³ × 7³ × 7³... (deep recursion)"@,
{
    assert(display::decimal(9) =~= seq!['9']) by {
        reveal_with_fuel(display::decimal, 2);
    }
    display::law_grouped_small(9);
    display::law_grouped_step(9, 261);
    assert(display::grouped(9_261) =~= seq!['9', ',', '2', '6', '1']);
    lemma_edge_label_5_parts();
}

proof fn lemma_stress_label_0_parts()
    ensures
        "Hardest semiprime (9×9 digit factors)"@ == "Hardest semiprime ("@ + seq!['9'] + "×"@ + seq!['9'] + " digit factors)"@,
{
    reveal_strlit("Hardest semiprime (9×9 digit factors)");
    reveal_strlit("Hardest semiprime (");
    reveal_strlit("×");
    reveal_strlit(" digit factors)");
    assert("Hardest semiprime (9×9 digit factors)"@ =~= "Hardest semiprime ("@ + seq!['9'] + "×"@ + seq!['9'] + " digit factors)"@);
}

proof fn lemma_stress_label_0()
    ensures
        "Hardest semiprime (9×9 digit factors)"@ == "Hardest semiprime ("@ + display::decimal(9) + "×"@ + display::decimal(9) + " digit factors)"@,
{
    assert(display::decimal(9) =~= seq!['9']) by {
        reveal_with_fuel(display::decimal, 2);
    }
    lemma_stress_label_0_parts();
}

proof fn lemma_stress_label_1_parts()
    ensures
        "8×8 digit semiprime"@ == seq!['8'] + "×"@ + seq!['8'] + " digit semiprime"@,
{
    reveal_strlit("8×8 digit semiprime");
    reveal_strlit("×");
    reveal_strlit(" digit semiprime");
    assert("8×8 digit semiprime"@ =~= seq!['8'] + "×"@ + seq!['8'] + " digit semiprime"@);
}

proof fn lemma_stress_label_1()
    ensures
        "8×8 digit semiprime"@ == display::decimal(8) + "×"@ + display::decimal(8) + " digit semiprime"@,
{
    assert(display::decimal(8) =~= seq!['8']) by {
        reveal_with_fuel(display::decimal, 2);
    }
    lemma_stress_label_1_parts();
}

proof fn lemma_stress_label_2_parts()
    ensures
        "Mersenne prime M61 (primality only)"@ == "Mersenne prime M"@ + seq!['6', '1'] + " (primality only)"@,
{
    reveal_strlit("Mersenne prime M61 (primality only)");
    reveal_strlit("Mersenne prime M");
    reveal_strlit(" (primality only)");
    assert("Mersenne prime M61 (primality only)"@ =~= "Mersenne prime M"@ + seq!['6', '1'] + " (primality only)"@);
}

proof fn lemma_stress_label_2()
    ensures
        "Mersenne prime M61 (primality only)"@ == "Mersenne prime M"@ + display::decimal(61) + " (primality only)"@,
{
    assert(display::decimal(61) =~= seq!['6', '1']) by {
        reveal_with_fuel(display::decimal, 3);
    }
    lemma_stress_label_2_parts();
}

/// The label gives the two primes that the number is the product of, and how many digits
/// they have.
pub open spec fn labelled_product(case: TestCase, p: nat, q: nat) -> bool {
    &&& suite::semiprime(case.number as nat, p, q, 8, 10)
    &&& case.label@ == display::grouped(p) + " × "@ + display::grouped(q) + " ("@
        + display::decimal(display::decimal(p).len()) + "-digit × "@ + display::decimal(
        display::decimal(q).len(),
    ) + "-digit)"@
}

/// Law: the labels of the large semiprimes give their prime factors.
pub proof fn law_large_semiprimes_labels(cases: Seq<TestCase>)
    requires
        suite::large_semiprimes_cases(cases),
    ensures
        forall|j: int|
            0 <= j < 4 ==> exists|p: nat, q: nat| labelled_product(#[trigger] cases[j], p, q),
        exists|p: nat|
            {
                &&& suite::semiprime(cases[4].number as nat, p, p, 8, 10)
                &&& cases[4].label@ == #[trigger] display::grouped(p)
                    + "² (perfect square semiprime)"@
            },
        exists|p: nat, q: nat|
            {
                &&& suite::semiprime(cases[5].number as nat, p, q, 8, 10)
                &&& pow(2, 32) - 20 < q < p < pow(2, 32)
                &&& cases[5].label@ == #[trigger] display::grouped(p) + " × "@
                    + #[trigger] display::grouped(q) + " (near 2^32)"@
            },
{
    suite::lemma_powers();
    known_primes::lemma_known_primes();
    display::law_digit_count(99_999_971, 8);
    display::law_digit_count(99_999_989, 8);
    display::law_digit_count(999_999_937, 9);
    display::law_digit_count(999_999_893, 9);
    display::law_digit_count(999_999_751, 9);
    display::law_digit_count(999_999_883, 9);
    lemma_semiprime_label_0();
    lemma_semiprime_label_1();
    lemma_semiprime_label_2();
    lemma_semiprime_label_3();
    lemma_semiprime_label_4();
    lemma_semiprime_label_5();
    assert(labelled_product(cases[0], 99_999_971, 99_999_989));
    assert(labelled_product(cases[1], 999_999_937, 999_999_893));
    assert(labelled_product(cases[2], 999_999_751, 999_999_883));
    assert(labelled_product(cases[3], 99_999_989, 999_999_937));
    assert(suite::semiprime(cases[4].number as nat, 99_999_989, 99_999_989, 8, 10));
    assert(suite::semiprime(cases[5].number as nat, 4_294_967_291, 4_294_967_279, 8, 10));
    assert(pow(2, 32) == 4_294_967_296) by {
        lemma_pow_adds(2, 31, 1);
        lemma_pow1(2);
    }
}

/// Law: the labels of the highly composite numbers give how many prime factors they have,
/// or the factors themselves.
pub proof fn law_highly_composite_labels(cases: Seq<TestCase>)
    requires
        suite::highly_composite_cases(cases),
    ensures
        forall|j: int|
            0 <= j < 3 ==> (#[trigger] cases[j]).number == pow(
                2,
                factor::factors_of(cases[j].number as nat).len(),
            ) && cases[j].label@ == "2^"@ + display::decimal(
                factor::factors_of(cases[j].number as nat).len(),
            ) + " ("@ + display::decimal(factor::factors_of(cases[j].number as nat).len())
                + " prime factors)"@,
        cases[3].label@ == display::decimal(20) + "! (factorial, "@ + display::decimal(
            factor::factors_of(cases[3].number as nat).len(),
        ) + " prime factors)"@,
        exists|s: Seq<nat>|
            suite_numbers::factors_are(cases[4].number as nat, s) && factor::ascending(s)
                && cases[4].label@ == #[trigger] display::factors_text(s),
        cases[5].label@ == display::grouped(cases[5].number as nat) + " (highly composite, "@
            + display::decimal(factor::factors_of(cases[5].number as nat).len()) + " factors)"@,
        cases[6].label@ == "Product of first "@ + display::decimal(
            factor::factors_of(cases[6].number as nat).len(),
        ) + " primes"@,
        exists|s: Seq<nat>|
            suite_numbers::factors_are(cases[7].number as nat, s) && factor::ascending(s)
                && cases[7].label@ == #[trigger] display::factors_text(s),
{
    suite::lemma_powers();
    suite_numbers::law_highly_composite_factors(cases);
    suite_numbers::law_highly_composite_counts(cases);
    lemma_composite_label_0();
    lemma_composite_label_1();
    lemma_composite_label_2();
    lemma_composite_label_3();
    lemma_composite_label_4();
    lemma_composite_label_5();
    lemma_composite_label_6();
    lemma_composite_label_7();
    assert(factor::ascending(seq![2nat, 2, 2, 3, 3, 3, 5, 5, 5, 7, 7, 7]));
    assert(factor::ascending(suite_numbers::repeated(2, 20) + suite_numbers::repeated(3, 10) + seq![7nat, 7, 7]));
}

/// Law: the labels of the primes give how far they are from a power, and how many digits
/// they have.
pub proof fn law_primes_labels(cases: Seq<TestCase>)
    requires
        suite::primes_cases(cases),
    ensures
        cases[0].label@ == "10^"@ + display::decimal(16) + " − "@ + display::decimal(
            (pow(10, 16) - cases[0].number) as nat,
        ) + " ("@ + display::decimal(display::decimal(cases[0].number as nat).len()) + " digits)"@,
        cases[1].label@ == "10^"@ + display::decimal(15) + " − "@ + display::decimal(
            (pow(10, 15) - cases[1].number) as nat,
        ) + " ("@ + display::decimal(display::decimal(cases[1].number as nat).len()) + " digits)"@,
        exists|e: nat|
            cases[2].number == pow(2, e) - 1 && cases[2].label@ == "2^"@
                + #[trigger] display::decimal(e) + " − 1 = Mersenne prime M"@ + display::decimal(e),
        cases[3].label@ == "10^"@ + display::decimal(12) + " + "@ + display::decimal(
            (cases[3].number - pow(10, 12)) as nat,
        ) + " ("@ + display::decimal(display::decimal(cases[3].number as nat).len()) + " digits)"@,
        cases[4].label@ == "~10^"@ + display::decimal(18) + " ("@ + display::decimal(
            display::decimal(cases[4].number as nat).len(),
        ) + " digits, verified prime)"@,
        cases[5].label@ == "10^"@ + display::decimal(18) + " − "@ + display::decimal(
            (pow(10, 18) - cases[5].number) as nat,
        ) + " ("@ + display::decimal(display::decimal(cases[5].number as nat).len()) + " digits)"@,
{
    suite::lemma_powers();
    display::law_digit_count(cases[0].number as nat, 16);
    display::law_digit_count(cases[1].number as nat, 15);
    display::law_digit_count(cases[3].number as nat, 13);
    display::law_digit_count(cases[4].number as nat, 18);
    display::law_digit_count(cases[5].number as nat, 18);
    lemma_prime_label_0();
    lemma_prime_label_1();
    lemma_prime_label_2();
    lemma_prime_label_3();
    lemma_prime_label_4();
    lemma_prime_label_5();
}

/// Law: the labels of the numbers of varied difficulty give their prime factors, or how
/// they come about.
pub proof fn law_stress_mixed_labels(cases: Seq<TestCase>)
    requires
        suite::stress_mixed_cases(cases),
    ensures
        exists|s: Seq<nat>|
            suite_numbers::factors_are(cases[0].number as nat, s) && cases[0].label@
                == #[trigger] display::factors_text(s) + " ("@ + display::decimal(s.len())
                + " primes)"@,
        exists|p: nat|
            cases[1].number == p * (pow(10, 15) - 11) && arith::prime(p) && cases[1].label@
                == #[trigger] display::grouped(p) + " × (10^"@ + display::decimal(15) + " − "@
                + display::decimal(11) + ") (small × large prime)"@,
        exists|s: Seq<nat>|
            suite_numbers::factors_are(cases[2].number as nat, s) && cases[2].label@
                == #[trigger] display::factors_text(s) + " (large prime power)"@,
        exists|p: nat, q: nat|
            suite::semiprime(cases[3].number as nat, p, q, 8, 8) && cases[3].label@
                == "RSA-like: "@ + #[trigger] display::grouped(p) + " × "@
                + #[trigger] display::grouped(q),
        exists|e: nat|
            cases[4].number == (pow(2, e) - 1) * (pow(2, e) - 1) && cases[4].label@ == "M"@
                + #[trigger] display::decimal(e) + "² = (2^"@ + display::decimal(e)
                + " − 1)² (Mersenne squared)"@,
        cases[5].label@ == "Fibonacci("@ + display::decimal(44) + ") = "@ + display::grouped(
            cases[5].number as nat,
        ),
        exists|s: Seq<nat>|
            suite_numbers::factors_are(cases[6].number as nat, s) && cases[6].number == pow(10, 18)
                && cases[6].label@ == "10^"@ + display::decimal(18) + " = "@
                + #[trigger] display::factors_text(s) + " (power of 10)"@,
        exists|s: Seq<nat>|
            suite_numbers::factors_are(cases[7].number as nat, s) && cases[7].label@
                == "Carmichael number: "@ + display::grouped(cases[7].number as nat) + " = "@
                + #[trigger] display::factors_text(s),
{
    suite::lemma_powers();
    known_primes::lemma_known_primes();
    known_primes::lemma_small_primes();
    suite_numbers::law_stress_mixed_factors(cases);
    lemma_mixed_label_0();
    lemma_mixed_label_1();
    lemma_mixed_label_2();
    lemma_mixed_label_3();
    lemma_mixed_label_4();
    lemma_mixed_label_5();
    lemma_mixed_label_6();
    lemma_mixed_label_7();
    assert(suite::semiprime(cases[3].number as nat, 99_999_959, 99_999_941, 8, 8));
}

/// Law: the labels of the boundary values give the number, its prime factors or how it
/// comes about.
pub proof fn law_edge_labels(cases: Seq<TestCase>)
    requires
        suite::edge_cases(cases),
    ensures
        cases[0].label@ == "Smallest prime: "@ + display::grouped(cases[0].number as nat),
        cases[1].label@ == "Largest single-digit prime: "@ + display::grouped(
            cases[1].number as nat,
        ),
        exists|s: Seq<nat>|
            suite_numbers::factors_are(cases[2].number as nat, s) && cases[2].label@
                == "Large Carmichael: "@ + display::grouped(cases[2].number as nat) + " = "@
                + #[trigger] display::factors_text(s),
        cases[3].label@ == "10^"@ + display::decimal(16) + " − "@ + display::decimal(
            (pow(10, 16) - cases[3].number) as nat,
        ) + " (adjacent to known prime)"@,
        exists|e: nat|
            cases[4].number == pow(2, e) - 1 && cases[4].label@ == "2^"@
                + #[trigger] display::decimal(e) + " − 1 (composite Mersenne)"@,
        exists|c: nat|
            cases[5].number == c * c * c && cases[5].label@ == "Perfect cube: "@
                + #[trigger] display::grouped(c) + "³ = 3³ × 7³ × 7³... (deep recursion)"@,
{
    suite::lemma_powers();
    suite_numbers::law_edge_factors(cases);
    lemma_edge_label_0();
    lemma_edge_label_1();
    lemma_edge_label_2();
    lemma_edge_label_3();
    lemma_edge_label_4();
    lemma_edge_label_5();
}

/// Law: the labels of the stress tests give how many digits the prime factors have, or
/// which Mersenne prime it is.
pub proof fn law_stress_labels(cases: Seq<suite::StressCase>)
    requires
        suite::stress_list(cases),
    ensures
        exists|p: nat, q: nat|
            #[trigger] suite::semiprime(cases[0].number as nat, p, q, 8, 10) && cases[0].label@
                == "Hardest semiprime ("@ + display::decimal(display::decimal(p).len()) + "×"@
                + display::decimal(display::decimal(q).len()) + " digit factors)"@,
        exists|p: nat, q: nat|
            #[trigger] suite::semiprime(cases[1].number as nat, p, q, 8, 10) && cases[1].label@
                == display::decimal(display::decimal(p).len()) + "×"@ + display::decimal(
                display::decimal(q).len(),
            ) + " digit semiprime"@,
        exists|e: nat|
            cases[2].number == pow(2, e) - 1 && cases[2].label@ == "Mersenne prime M"@
                + #[trigger] display::decimal(e) + " (primality only)"@,
{
    suite::lemma_powers();
    known_primes::lemma_known_primes();
    display::law_digit_count(99_999_971, 8);
    display::law_digit_count(99_999_989, 8);
    display::law_digit_count(999_999_751, 9);
    display::law_digit_count(999_999_883, 9);
    lemma_stress_label_0();
    lemma_stress_label_1();
    lemma_stress_label_2();
    assert(suite::semiprime(cases[0].number as nat, 999_999_751, 999_999_883, 8, 10));
    assert(suite::semiprime(cases[1].number as nat, 99_999_971, 99_999_989, 8, 10));
}

} // verus!
