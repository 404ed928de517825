//! Factorizations read back from their text.

use crate::display;
use vstd::prelude::*;
use vstd::string::*;

verus! {

/// The factors that runs stand for.
pub open spec fn expand(rs: Seq<(nat, nat)>) -> Seq<nat>
    decreases rs.len(),
{
    if rs.len() == 0 {
        seq![]
    } else {
        expand(rs.drop_last()) + Seq::new(rs.last().1, |i: int| rs.last().0)
    }
}

/// Law: the runs of a sequence stand for the sequence, none of them is empty, and
/// neighbouring runs are of different numbers.
pub proof fn law_runs(s: Seq<nat>)
    ensures
        expand(display::runs(s)) == s,
        forall|i: int|
            0 <= i < display::runs(s).len() ==> 1 <= (#[trigger] display::runs(s)[i]).1,
        forall|i: int, j: int|
            0 <= i && j == i + 1 && j < display::runs(s).len() ==> (#[trigger] display::runs(
                s,
            )[i]).0 != (#[trigger] display::runs(s)[j]).0,
    decreases s.len(),
{
    if s.len() > 0 {
        let t = s.drop_last();
        let x = s.last();
        let r = display::runs(t);
        let rs = display::runs(s);
        law_runs(t);
        if r.len() > 0 && r.last().0 == x {
            let k = r.last().1;
            let head = r.drop_last();
            assert(rs.drop_last() =~= head);
            assert(expand(rs) =~= expand(head) + Seq::new(k + 1, |i: int| x));
            assert(expand(rs) =~= (expand(head) + Seq::new(k, |i: int| x)).push(x));
            assert(Seq::new(k, |i: int| r.last().0) =~= Seq::new(k, |i: int| x));
        } else {
            assert(rs.drop_last() =~= r);
            assert(expand(rs) =~= expand(r).push(x));
        }
        assert(t.push(x) =~= s);
    } else {
        assert(expand(display::runs(s)) =~= s);
    }
}

/// The number with these decimal digits.
pub open spec fn digits_value(ds: Seq<char>) -> nat
    decreases ds.len(),
{
    if ds.len() == 0 {
        0
    } else {
        digits_value(ds.drop_last()) * 10 + (ds.last() as nat - 48) as nat
    }
}

/// The number that is written as `cs`, with or without commas.
pub open spec fn read_number(cs: Seq<char>) -> nat {
    digits_value(cs.filter(|c: char| c != ','))
}

/// Where `c` stands last in `cs`; minus one where it does not.
pub open spec fn last_at(cs: Seq<char>, c: char) -> int
    decreases cs.len(),
{
    if cs.len() == 0 {
        -1
    } else if cs.last() == c {
        cs.len() - 1
    } else {
        last_at(cs.drop_last(), c)
    }
}

/// The number and the exponent that are written as `cs`; the exponent is one where
/// it is left out.
pub open spec fn read_power(cs: Seq<char>) -> (nat, nat) {
    let k = last_at(cs, '^');
    if k < 0 {
        (read_number(cs), 1)
    } else {
        (read_number(cs.take(k)), read_number(cs.skip(k + 1)))
    }
}

/// The texts between the multiplication signs, each of which has a space on either
/// side.
pub open spec fn parts(text: Seq<char>) -> Seq<Seq<char>>
    decreases text.len(),
{
    let k = last_at(text, '×');
    if text.len() == 0 {
        seq![]
    } else if 1 <= k && k + 2 <= text.len() && text[k - 1] == ' ' && text[k + 1] == ' ' {
        parts(text.take(k - 1)).push(text.skip(k + 2))
    } else {
        seq![text]
    }
}

/// The powers that are written as `text`.
pub open spec fn read_powers(text: Seq<char>) -> Seq<(nat, nat)> {
    parts(text).map_values(|cs: Seq<char>| read_power(cs))
}

/// The factors that are written as `text`.
pub open spec fn read_factors(text: Seq<char>) -> Seq<nat> {
    expand(read_powers(text))
}

proof fn lemma_last_at_absent(cs: Seq<char>, c: char)
    requires
        forall|i: int| 0 <= i < cs.len() ==> #[trigger] cs[i] != c,
    ensures
        last_at(cs, c) == -1,
    decreases cs.len(),
{
    if cs.len() > 0 {
        assert forall|i: int| 0 <= i < cs.drop_last().len() implies #[trigger] cs.drop_last()[i]
            != c by {
            assert(cs.drop_last()[i] == cs[i]);
        }
        assert(cs.last() == cs[cs.len() - 1]);
        lemma_last_at_absent(cs.drop_last(), c);
    }
}

/// The last `c` stands behind `k` characters if none comes after it.
proof fn lemma_last_at(cs: Seq<char>, c: char, k: int)
    requires
        0 <= k < cs.len(),
        cs[k] == c,
        forall|i: int| k < i < cs.len() ==> #[trigger] cs[i] != c,
    ensures
        last_at(cs, c) == k,
    decreases cs.len(),
{
    if k < cs.len() - 1 {
        assert(cs.last() == cs[cs.len() - 1]);
        assert forall|i: int| k < i < cs.drop_last().len() implies #[trigger] cs.drop_last()[i]
            != c by {
            assert(cs.drop_last()[i] == cs[i]);
        }
        assert(cs.drop_last()[k] == cs[k]);
        lemma_last_at(cs.drop_last(), c, k);
    }
}

proof fn lemma_digits_value(n: nat)
    ensures
        digits_value(display::decimal(n)) == n,
    decreases n,
{
    let ds = display::decimal(n);
    if n >= 10 {
        assert(ds.drop_last() =~= display::decimal(n / 10));
        assert(ds.last() == display::digit_char(n % 10));
        lemma_digits_value(n / 10);
    } else {
        assert(ds.drop_last().len() == 0);
        assert(ds.last() == display::digit_char(n));
        assert(digits_value(ds.drop_last()) == 0);
    }
}

/// Law: a number can be read back from its digits, with commas and without.
pub proof fn law_number_reads_back(n: nat)
    ensures
        read_number(display::decimal(n)) == n,
        read_number(display::grouped(n)) == n,
{
    display::law_grouping_keeps_digits(n);
    display::lemma_decimal_digits(n);
    display::lemma_filter_digits(display::decimal(n));
    lemma_digits_value(n);
}

/// Digits and commas only.
spec fn numeric(cs: Seq<char>) -> bool {
    forall|i: int| 0 <= i < cs.len() ==> ('0' <= #[trigger] cs[i] <= '9' || cs[i] == ',')
}

proof fn lemma_group_numeric(ds: Seq<char>)
    requires
        display::all_digits(ds),
    ensures
        numeric(display::group_thousands(ds)),
        display::group_thousands(ds).len() >= ds.len(),
    decreases ds.len(),
{
    if ds.len() > 3 {
        let m = ds.len() - 3;
        assert(display::all_digits(ds.take(m))) by {
            assert forall|i: int| 0 <= i < m implies '0' <= #[trigger] ds.take(m)[i] <= '9' by {
                assert(ds.take(m)[i] == ds[i]);
            }
        }
        lemma_group_numeric(ds.take(m));
        let head = display::group_thousands(ds.take(m));
        let all = display::group_thousands(ds);
        assert forall|i: int| 0 <= i < all.len() implies ('0' <= #[trigger] all[i] <= '9'
            || all[i] == ',') by {
            if i < head.len() {
                assert(all[i] == head[i]);
            } else if i > head.len() {
                assert(all[i] == ds[m + i - head.len() - 1]);
            }
        }
    }
}

proof fn lemma_numbers_numeric(n: nat)
    ensures
        numeric(display::decimal(n)),
        numeric(display::grouped(n)),
        display::grouped(n).len() > 0,
{
    display::lemma_decimal_digits(n);
    lemma_group_numeric(display::decimal(n));
    assert(display::decimal(n).len() > 0);
}

/// Law: a power can be read back from its text, which has an exponent where that is
/// not one, and no multiplication sign.
pub proof fn law_power_reads_back(run: (nat, nat))
    ensures
        read_power(display::power_text(run)) == run,
        display::power_text(run).len() > 0,
        display::power_text(run).contains('^') == (run.1 != 1),
        !display::power_text(run).contains('×'),
{
    reveal_strlit("^");
    let base = display::grouped(run.0);
    let exp = display::decimal(run.1);
    let text = display::power_text(run);
    lemma_numbers_numeric(run.0);
    lemma_numbers_numeric(run.1);
    law_number_reads_back(run.0);
    law_number_reads_back(run.1);
    let k = base.len() as int;
    if run.1 == 1 {
        lemma_last_at_absent(text, '^');
    } else {
        assert(text[k] == '^');
        assert forall|i: int| 0 <= i < text.len() && i != k implies #[trigger] text[i] != '^'
            && text[i] != '×' by {
            if i < k {
                assert(text[i] == base[i]);
            } else {
                assert(text[i] == exp[i - k - 1]);
            }
        }
        lemma_last_at(text, '^', k);
        assert(text.take(k) =~= base);
        assert(text.skip(k + 1) =~= exp);
    }
}

proof fn lemma_parts(rs: Seq<(nat, nat)>)
    ensures
        parts(display::product_text(rs)) == rs.map_values(
            |run: (nat, nat)| display::power_text(run),
        ),
        display::product_text(rs).len() == 0 <==> rs.len() == 0,
    decreases rs.len(),
{
    let text = display::product_text(rs);
    let texts = rs.map_values(|run: (nat, nat)| display::power_text(run));
    if rs.len() == 0 {
        assert(parts(text) =~= texts);
    } else {
        let last = display::power_text(rs.last());
        law_power_reads_back(rs.last());
        assert forall|i: int| 0 <= i < last.len() implies #[trigger] last[i] != '×' by {
            assert(last.contains(last[i]));
        }
        if rs.len() == 1 {
            lemma_last_at_absent(text, '×');
            assert(parts(text) =~= texts);
        } else {
            reveal_strlit(" × ");
            let head = display::product_text(rs.drop_last());
            let k = head.len() as int + 1;
            lemma_parts(rs.drop_last());
            assert(text[k] == '×');
            assert forall|i: int| k < i < text.len() implies #[trigger] text[i] != '×' by {
                if i > k + 1 {
                    assert(text[i] == last[i - k - 2]);
                }
            }
            lemma_last_at(text, '×', k);
            assert(text.take(k - 1) =~= head);
            assert(text.skip(k + 2) =~= last);
            assert(parts(text) =~= texts);
        }
    }
}

/// Law: the factors can be read back from their text. Its parts are the texts of the
/// runs, an exponent that is written is at least two, and the text is empty for no
/// factors only.
pub proof fn law_factors_read_back(s: Seq<nat>)
    ensures
        read_powers(display::factors_text(s)) == display::runs(s),
        read_factors(display::factors_text(s)) == s,
        parts(display::factors_text(s)).len() == display::runs(s).len(),
        forall|i: int|
            0 <= i < display::runs(s).len() ==> ((#[trigger] parts(
                display::factors_text(s),
            )[i]).contains('^') <==> display::runs(s)[i].1 >= 2),
        display::factors_text(s).len() == 0 <==> s.len() == 0,
{
    let rs = display::runs(s);
    let ps = parts(display::factors_text(s));
    lemma_parts(rs);
    law_runs(s);
    assert forall|i: int| 0 <= i < rs.len() implies read_power(#[trigger] ps[i]) == rs[i] && (
    ps[i].contains('^') <==> rs[i].1 >= 2) by {
        law_power_reads_back(rs[i]);
        assert(1 <= display::runs(s)[i].1);
    }
    assert(read_powers(display::factors_text(s)) =~= rs);
}

/// Law: different factors have different texts.
pub proof fn law_factors_text_injective(s: Seq<nat>, t: Seq<nat>)
    requires
        display::factors_text(s) == display::factors_text(t),
    ensures
        s == t,
{
    law_factors_read_back(s);
    law_factors_read_back(t);
}

} // verus!
