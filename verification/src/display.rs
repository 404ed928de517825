//! Numbers and factorizations as text.

use crate::factor;
use vstd::arithmetic::div_mod::*;
use vstd::arithmetic::power::*;
use vstd::prelude::*;
use vstd::string::*;

verus! {

/// The character of a decimal digit.
pub open spec fn digit_char(d: nat) -> char {
    (48 + d) as char
}

/// The decimal digits of a number, the most significant one first.
pub open spec fn decimal(n: nat) -> Seq<char>
    decreases n,
{
    if n < 10 {
        seq![digit_char(n)]
    } else {
        decimal(n / 10).push(digit_char(n % 10))
    }
}

/// Digits with a comma before every three from the right.
pub open spec fn group_thousands(ds: Seq<char>) -> Seq<char>
    decreases ds.len(),
{
    if ds.len() <= 3 {
        ds
    } else {
        let m = ds.len() - 3;
        group_thousands(ds.take(m)) + seq![','] + ds.skip(m)
    }
}

/// A number in decimal, with commas between the thousands.
pub open spec fn grouped(n: nat) -> Seq<char> {
    group_thousands(decimal(n))
}

/// The first `t` of the digits `ds`, with the commas that stand before them.
spec fn with_commas(ds: Seq<char>, t: int) -> Seq<char>
    decreases t,
{
    if t <= 0 {
        seq![]
    } else if t > 1 && (ds.len() - (t - 1)) % 3 == 0 {
        with_commas(ds, t - 1).push(',').push(ds[t - 1])
    } else {
        with_commas(ds, t - 1).push(ds[t - 1])
    }
}

proof fn lemma_with_commas_prefix(ds: Seq<char>, t: int)
    requires
        ds.len() > 3,
        0 <= t <= ds.len() - 3,
    ensures
        with_commas(ds, t) == with_commas(ds.take(ds.len() - 3), t),
    decreases t,
{
    if t > 0 {
        lemma_with_commas_prefix(ds, t - 1);
    }
}

proof fn lemma_with_commas(ds: Seq<char>)
    ensures
        with_commas(ds, ds.len() as int) == group_thousands(ds),
    decreases ds.len(),
{
    reveal_with_fuel(with_commas, 4);
    if ds.len() <= 3 {
        assert(with_commas(ds, ds.len() as int) =~= ds);
    } else {
        let m = ds.len() - 3;
        lemma_with_commas_prefix(ds, m);
        lemma_with_commas(ds.take(m));
        assert(with_commas(ds, ds.len() as int) =~= with_commas(ds, m) + seq![','] + ds.skip(m));
    }
}

/// A digit as a string.
fn digit_str(d: u64) -> (s: &'static str)
    requires
        d < 10,
    ensures
        s@ == seq![digit_char(d as nat)],
{
    proof {
        reveal_strlit("0");
        reveal_strlit("1");
        reveal_strlit("2");
        reveal_strlit("3");
        reveal_strlit("4");
        reveal_strlit("5");
        reveal_strlit("6");
        reveal_strlit("7");
        reveal_strlit("8");
        reveal_strlit("9");
    }
    let s: &'static str = match d {
        0 => "0",
        1 => "1",
        2 => "2",
        3 => "3",
        4 => "4",
        5 => "5",
        6 => "6",
        7 => "7",
        8 => "8",
        _ => "9",
    };
    assert(s@ =~= seq![digit_char(d as nat)]);
    s
}

/// The characters of digits that are given with the least significant one first.
spec fn reversed_digits(ds: Seq<u64>) -> Seq<char> {
    Seq::new(ds.len(), |i: int| digit_char(ds[ds.len() - 1 - i] as nat))
}

/// The decimal digits of a number, the least significant one first.
fn digits(n: u64) -> (ds: Vec<u64>)
    ensures
        reversed_digits(ds@) == decimal(n as nat),
        forall|i: int| 0 <= i < ds@.len() ==> ds@[i] < 10,
        1 <= ds@.len() <= n + 1,
{
    let mut ds: Vec<u64> = Vec::new();
    let mut m: u64 = n;
    assert(decimal(m as nat) + reversed_digits(ds@) =~= decimal(m as nat));
    while m >= 10
        invariant
            decimal(n as nat) == decimal(m as nat) + reversed_digits(ds@),
            forall|i: int| 0 <= i < ds@.len() ==> ds@[i] < 10,
            ds@.len() + m <= n,
        decreases m,
    {
        let ghost before = reversed_digits(ds@);
        ds.push(m % 10);
        assert(reversed_digits(ds@) =~= seq![digit_char((m % 10) as nat)] + before);
        assert(decimal(m as nat) + before =~= decimal((m / 10) as nat) + reversed_digits(ds@));
        m = m / 10;
    }
    let ghost before = reversed_digits(ds@);
    ds.push(m);
    assert(reversed_digits(ds@) =~= seq![digit_char(m as nat)] + before);
    ds
}

/// A number in decimal.
pub fn decimal_string(n: u64) -> (s: String)
    ensures
        s@ == decimal(n as nat),
{
    let ds = digits(n);
    let ghost all = reversed_digits(ds@);
    let mut out = String::new();
    let mut i: usize = ds.len();
    assert(all.take(0) =~= out@);
    while i > 0
        invariant
            i <= ds@.len(),
            all == reversed_digits(ds@),
            forall|i: int| 0 <= i < ds@.len() ==> ds@[i] < 10,
            out@ == all.take(ds@.len() - i),
        decreases i,
    {
        i = i - 1;
        out.append(digit_str(ds[i]));
        assert(out@ =~= all.take(ds@.len() - i));
    }
    assert(all.take(ds@.len() as int) =~= all);
    out
}

/// A number in decimal, with commas between the thousands.
pub fn format_number(n: u64) -> (s: String)
    ensures
        s@ == grouped(n as nat),
{
    proof {
        reveal_strlit(",");
    }
    let ds = digits(n);
    let ghost all = reversed_digits(ds@);
    let mut out = String::new();
    let mut i: usize = ds.len();
    while i > 0
        invariant
            i <= ds@.len(),
            all == reversed_digits(ds@),
            forall|i: int| 0 <= i < ds@.len() ==> ds@[i] < 10,
            out@ == with_commas(all, ds@.len() - i),
            ","@ == seq![','],
        decreases i,
    {
        let ghost before = out@;
        if i < ds.len() && i % 3 == 0 {
            out.append(",");
            assert(out@ =~= before.push(','));
        }
        let ghost middle = out@;
        i = i - 1;
        out.append(digit_str(ds[i]));
        assert(out@ =~= middle.push(all[ds@.len() - i - 1]));
    }
    proof {
        lemma_with_commas(all);
    }
    out
}

/// The runs of equal neighbours of a sequence, each with its length.
pub open spec fn runs(s: Seq<nat>) -> Seq<(nat, nat)>
    decreases s.len(),
{
    if s.len() == 0 {
        seq![]
    } else {
        let r = runs(s.drop_last());
        let x = s.last();
        if r.len() > 0 && r.last().0 == x {
            r.drop_last().push((x, r.last().1 + 1))
        } else {
            r.push((x, 1))
        }
    }
}

/// A factor with its exponent, which is left out where it is one.
pub open spec fn power_text(run: (nat, nat)) -> Seq<char> {
    if run.1 == 1 {
        grouped(run.0)
    } else {
        grouped(run.0) + "^"@ + decimal(run.1)
    }
}

/// The texts of runs, with a multiplication sign between them.
pub open spec fn product_text(rs: Seq<(nat, nat)>) -> Seq<char>
    decreases rs.len(),
{
    if rs.len() == 0 {
        seq![]
    } else if rs.len() == 1 {
        power_text(rs[0])
    } else {
        product_text(rs.drop_last()) + " × "@ + power_text(rs.last())
    }
}

/// The factors as a product of powers, run by run.
pub open spec fn factors_text(s: Seq<nat>) -> Seq<char> {
    product_text(runs(s))
}

/// The values of machine runs.
spec fn run_values(rs: Seq<(u64, usize)>) -> Seq<(nat, nat)> {
    rs.map_values(|r: (u64, usize)| (r.0 as nat, r.1 as nat))
}

/// No run is longer than the sequence.
proof fn lemma_run_bound(s: Seq<nat>)
    ensures
        runs(s).len() <= s.len(),
        forall|i: int| 0 <= i < runs(s).len() ==> 1 <= #[trigger] runs(s)[i].1 <= s.len(),
    decreases s.len(),
{
    if s.len() > 0 {
        lemma_run_bound(s.drop_last());
        let r = runs(s.drop_last());
        assert forall|i: int| 0 <= i < runs(s).len() implies 1 <= #[trigger] runs(s)[i].1
            <= s.len() by {
            if i < r.len() {
                assert(1 <= r[i].1 <= s.drop_last().len());
            }
        }
    }
}

fn collect_runs(factors: &[u64]) -> (groups: Vec<(u64, usize)>)
    ensures
        run_values(groups@) == runs(factor::as_nats(factors@)),
{
    let ghost s = factor::as_nats(factors@);
    let mut groups: Vec<(u64, usize)> = Vec::new();
    let mut i: usize = 0;
    assert(s.take(0).len() == 0);
    assert(run_values(groups@) =~= runs(s.take(0)));
    while i < factors.len()
        invariant
            i <= factors@.len(),
            s == factor::as_nats(factors@),
            run_values(groups@) == runs(s.take(i as int)),
        decreases factors@.len() - i,
    {
        let f = factors[i];
        let ghost before = run_values(groups@);
        proof {
            lemma_run_bound(s.take(i as int));
            assert(s.take(i + 1).drop_last() =~= s.take(i as int));
            assert(s.take(i + 1).last() == f as nat);
        }
        let len = groups.len();
        if len > 0 && groups[len - 1].0 == f {
            assert(before.last() == (groups@[len - 1].0 as nat, groups@[len - 1].1 as nat));
            assert(before[len - 1].1 <= i);
            let exp = groups[len - 1].1;
            groups.set(len - 1, (f, exp + 1));
            assert(run_values(groups@) =~= before.drop_last().push((f as nat, (exp + 1) as nat)));
        } else {
            groups.push((f, 1));
            assert(run_values(groups@) =~= before.push((f as nat, 1)));
            if len > 0 {
                assert(before.last().0 == groups@[len - 1].0);
            }
        }
        i = i + 1;
    }
    assert(s.take(i as int) =~= s);
    groups
}

/// The factors as a product of powers, such as `2^4 × 3^2 × 5`; empty where
/// there are none. Only neighbours are drawn together.
pub fn factors_display(factors: &[u64]) -> (s: String)
    ensures
        s@ == factors_text(factor::as_nats(factors@)),
{
    let groups = collect_runs(factors);
    let ghost rs = run_values(groups@);
    let mut out = String::new();
    let mut i: usize = 0;
    assert(rs.take(0).len() == 0);
    while i < groups.len()
        invariant
            i <= groups@.len(),
            rs == run_values(groups@),
            out@ == product_text(rs.take(i as int)),
        decreases groups@.len() - i,
    {
        let ghost before = out@;
        let (base, exp) = groups[i];
        assert(rs.take(i + 1).drop_last() =~= rs.take(i as int));
        assert(rs.take(i + 1).last() == (base as nat, exp as nat));
        if i > 0 {
            out.append(" × ");
        }
        let ghost middle = out@;
        let number = format_number(base);
        out.append(number.as_str());
        if exp != 1 {
            out.append("^");
            let exponent = decimal_string(exp as u64);
            out.append(exponent.as_str());
        }
        proof {
            let run = (base as nat, exp as nat);
            assert(out@ =~= middle + power_text(run));
            assert(middle =~= if i > 0 {
                before + " × "@
            } else {
                seq![]
            });
        }
        i = i + 1;
    }
    assert(rs.take(i as int) =~= rs);
    out
}

/// The greatest number of a sequence; zero for the empty one.
pub open spec fn greatest(s: Seq<nat>) -> nat
    decreases s.len(),
{
    if s.len() == 0 {
        0
    } else if greatest(s.drop_last()) > s.last() {
        greatest(s.drop_last())
    } else {
        s.last()
    }
}

/// The grade of a factorization by its greatest factor.
pub open spec fn grade(largest: nat) -> Seq<char> {
    if largest < 1_000 {
        "trivial (largest factor: "@
    } else if largest < 1_000_000 {
        "easy (largest factor: "@
    } else if largest < 1_000_000_000 {
        "medium (largest factor: "@
    } else {
        "hard (largest factor: "@
    }
}

/// How hard a number with these factors is to factorize, in words.
pub open spec fn difficulty_text(s: Seq<nat>) -> Seq<char> {
    if s.len() == 1 {
        "prime — Miller-Rabin deterministic test"@
    } else {
        let largest = greatest(s);
        grade(largest) + decimal(decimal(largest).len()) + " digits)"@
    }
}

/// How hard a number with these factors is to factorize, in words: by the number
/// of digits of the greatest one, unless there is one factor only.
pub fn classify_difficulty(factors: &[u64]) -> (s: String)
    ensures
        s@ == difficulty_text(factor::as_nats(factors@)),
{
    let ghost all = factor::as_nats(factors@);
    if factors.len() == 1 {
        return String::from_str("prime — Miller-Rabin deterministic test");
    }
    let mut largest: u64 = 0;
    let mut i: usize = 0;
    assert(all.take(0).len() == 0);
    while i < factors.len()
        invariant
            i <= factors@.len(),
            all == factor::as_nats(factors@),
            largest == greatest(all.take(i as int)),
        decreases factors@.len() - i,
    {
        assert(all.take(i + 1).drop_last() =~= all.take(i as int));
        assert(all.take(i + 1).last() == factors@[i as int] as nat);
        if factors[i] >= largest {
            largest = factors[i];
        }
        i = i + 1;
    }
    assert(all.take(i as int) =~= all);
    let ds = digits(largest);
    assert(ds@.len() == decimal(largest as nat).len());
    let count = decimal_string(ds.len() as u64);
    let start = if largest < 1_000 {
        "trivial (largest factor: "
    } else if largest < 1_000_000 {
        "easy (largest factor: "
    } else if largest < 1_000_000_000 {
        "medium (largest factor: "
    } else {
        "hard (largest factor: "
    };
    let mut out = String::from_str(start);
    out.append(count.as_str());
    out.append(" digits)");
    out
}

/// The digits of a number determine it.
proof fn lemma_decimal_injective(a: nat, b: nat)
    requires
        decimal(a) == decimal(b),
    ensures
        a == b,
    decreases a,
{
    if a >= 10 && b >= 10 {
        assert(decimal(a).drop_last() =~= decimal(a / 10));
        assert(decimal(b).drop_last() =~= decimal(b / 10));
        assert(decimal(a).last() == digit_char(a % 10));
        assert(decimal(b).last() == digit_char(b % 10));
        lemma_decimal_injective(a / 10, b / 10);
    } else if a < 10 && b < 10 {
        assert(decimal(a)[0] == digit_char(a));
        assert(decimal(b)[0] == digit_char(b));
    } else {
        lemma_decimal_len(a);
        lemma_decimal_len(b);
    }
}

proof fn lemma_decimal_len(n: nat)
    ensures
        decimal(n).len() >= 1,
        n >= 10 ==> decimal(n).len() >= 2,
    decreases n,
{
    if n >= 10 {
        lemma_decimal_len(n / 10);
    }
}

/// Decimal digits only.
pub open spec fn all_digits(ds: Seq<char>) -> bool {
    forall|i: int| 0 <= i < ds.len() ==> '0' <= #[trigger] ds[i] <= '9'
}

/// The digits of a number are digits.
pub proof fn lemma_decimal_digits(n: nat)
    ensures
        all_digits(decimal(n)),
    decreases n,
{
    if n >= 10 {
        lemma_decimal_digits(n / 10);
    }
}

/// Digits hold no commas.
pub proof fn lemma_filter_digits(ds: Seq<char>)
    requires
        all_digits(ds),
    ensures
        ds.filter(|c: char| c != ',') == ds,
    decreases ds.len(),
{
    reveal(Seq::filter);
    if ds.len() > 0 {
        assert(all_digits(ds.drop_last())) by {
            assert forall|i: int| 0 <= i < ds.drop_last().len() implies '0'
                <= #[trigger] ds.drop_last()[i] <= '9' by {
                assert(ds.drop_last()[i] == ds[i]);
            }
        }
        lemma_filter_digits(ds.drop_last());
        assert('0' <= ds[ds.len() - 1] <= '9');
        assert(ds.drop_last().push(ds.last()) =~= ds);
    }
}

proof fn lemma_ungroup(ds: Seq<char>)
    requires
        all_digits(ds),
    ensures
        group_thousands(ds).filter(|c: char| c != ',') == ds,
    decreases ds.len(),
{
    let keep = |c: char| c != ',';
    if ds.len() <= 3 {
        lemma_filter_digits(ds);
    } else {
        let m = ds.len() - 3;
        let head = ds.take(m);
        let tail = ds.skip(m);
        assert(all_digits(head)) by {
            assert forall|i: int| 0 <= i < head.len() implies '0' <= #[trigger] head[i] <= '9' by {
                assert(head[i] == ds[i]);
            }
        }
        assert(all_digits(tail)) by {
            assert forall|i: int| 0 <= i < tail.len() implies '0' <= #[trigger] tail[i] <= '9' by {
                assert(tail[i] == ds[i + m]);
            }
        }
        lemma_ungroup(head);
        lemma_filter_digits(tail);
        let g = group_thousands(head) + seq![','];
        Seq::filter_distributes_over_add(g, tail, keep);
        Seq::filter_distributes_over_add(group_thousands(head), seq![','], keep);
        assert(seq![','].filter(keep) =~= seq![]) by {
            reveal_with_fuel(Seq::filter, 2);
            assert(seq![','].drop_last() =~= seq![]);
        }
        assert(head + seq![] + tail =~= ds);
    }
}

/// Law: the commas are all that the grouping adds to the digits.
pub proof fn law_grouping_keeps_digits(n: nat)
    ensures
        grouped(n).filter(|c: char| c != ',') == decimal(n),
{
    lemma_decimal_digits(n);
    lemma_ungroup(decimal(n));
}

/// Law: different numbers are formatted differently.
pub proof fn law_grouped_injective(a: nat, b: nat)
    requires
        grouped(a) == grouped(b),
    ensures
        a == b,
{
    law_grouping_keeps_digits(a);
    law_grouping_keeps_digits(b);
    lemma_decimal_injective(a, b);
}

/// Law: the digits of a number are its remainders by ten, after a division by each
/// power of ten; there are as many as the number needs, and at least one.
pub proof fn law_decimal(n: nat)
    ensures
        decimal(n).len() >= 1,
        n < pow(10, decimal(n).len()),
        decimal(n).len() > 1 ==> pow(10, (decimal(n).len() - 1) as nat) <= n,
        forall|i: int|
            0 <= i < decimal(n).len() ==> #[trigger] decimal(n)[decimal(n).len() - 1 - i] as int
                == '0' as int + (n as int / pow(10, i as nat)) % 10,
    decreases n,
{
    let ds = decimal(n);
    let len = ds.len();
    lemma_pow0(10);
    lemma_pow1(10);
    if n < 10 {
        assert(ds[0] == digit_char(n));
        assert forall|i: int| 0 <= i < len implies #[trigger] ds[len - 1 - i] as int == '0' as int
            + (n as int / pow(10, i as nat)) % 10 by {
            assert(i == 0);
        }
    } else {
        let m = n / 10;
        law_decimal(m);
        let es = decimal(m);
        lemma_pow_adds(10, 1, es.len());
        assert(es.len() == len - 1);
        if es.len() > 1 {
            lemma_pow_adds(10, 1, (es.len() - 1) as nat);
        }
        assert forall|i: int| 0 <= i < len implies #[trigger] ds[len - 1 - i] as int == '0' as int
            + (n as int / pow(10, i as nat)) % 10 by {
            if i == 0 {
                assert(ds[len - 1] == digit_char(n % 10));
            } else {
                let j = i - 1;
                assert(ds[len - 1 - i] == es[es.len() - 1 - j]);
                lemma_pow_adds(10, 1, j as nat);
                lemma_pow_positive(10, j as nat);
                lemma_div_denominator(n as int, 10, pow(10, j as nat));
            }
        }
    }
}

/// Grouped digits, counted from the last one: every fourth character is a comma.
proof fn lemma_group_places(ds: Seq<char>)
    requires
        ds.len() >= 1,
    ensures
        group_thousands(ds).len() == ds.len() + (ds.len() - 1) / 3,
        forall|i: int|
            0 <= i < group_thousands(ds).len() ==> #[trigger] group_thousands(
                ds,
            )[group_thousands(ds).len() - 1 - i] == if i % 4 == 3 {
                ','
            } else {
                ds[ds.len() - 1 - (i - i / 4)]
            },
    decreases ds.len(),
{
    let g = group_thousands(ds);
    if ds.len() > 3 {
        let m = ds.len() - 3;
        let head = ds.take(m);
        lemma_group_places(head);
        let h = group_thousands(head);
        assert(g.len() == h.len() + 4);
        assert forall|i: int| 0 <= i < g.len() implies #[trigger] g[g.len() - 1 - i] == if i % 4
            == 3 {
            ','
        } else {
            ds[ds.len() - 1 - (i - i / 4)]
        } by {
            if i >= 4 {
                let j = i - 4;
                assert(g[g.len() - 1 - i] == h[h.len() - 1 - j]);
                assert(j / 4 == i / 4 - 1);
            }
        }
    }
}

/// Law: a formatted number has a comma in every fourth place from the right and its
/// digits in the others.
pub proof fn law_grouped(n: nat)
    ensures
        grouped(n).len() == decimal(n).len() + (decimal(n).len() - 1) / 3,
        forall|i: int|
            0 <= i < grouped(n).len() && i % 4 == 3 ==> #[trigger] grouped(n)[grouped(n).len() - 1
                - i] == ',',
        forall|i: int|
            0 <= i < grouped(n).len() && i % 4 != 3 ==> #[trigger] grouped(n)[grouped(n).len() - 1
                - i] as int == '0' as int + (n as int / pow(10, (i - i / 4) as nat)) % 10,
{
    let ds = decimal(n);
    let g = grouped(n);
    law_decimal(n);
    lemma_group_places(ds);
    assert forall|i: int| 0 <= i < g.len() && i % 4 != 3 implies #[trigger] g[g.len() - 1 - i] as int
        == '0' as int + (n as int / pow(10, (i - i / 4) as nat)) % 10 by {
        let j = i - i / 4;
        assert(ds[ds.len() - 1 - j] as int == '0' as int + (n as int / pow(10, j as nat)) % 10);
    }
}

/// A run at the end of a sequence is its last run.
proof fn lemma_runs_push(t: Seq<nat>, x: nat, e: nat)
    requires
        e >= 1,
        t.len() == 0 || t.last() != x,
    ensures
        runs(t + Seq::new(e, |i: int| x)) == runs(t).push((x, e)),
    decreases e,
{
    let s = t + Seq::new(e, |i: int| x);
    if e == 1 {
        assert(s.drop_last() =~= t);
        if t.len() > 0 {
            let r = runs(t.drop_last());
            assert(runs(t).last().0 == t.last());
        }
    } else {
        let f = (e - 1) as nat;
        lemma_runs_push(t, x, f);
        assert(s.drop_last() =~= t + Seq::new(f, |i: int| x));
        assert(runs(s) =~= runs(t).push((x, e)));
    }
}

/// Law: no factors have the empty text. Factors that end in `e` times `x`, and not
/// more, are written as those before, a multiplication sign between spaces, `x` with
/// commas and, where `e` is not one, the exponent.
pub proof fn law_factors_text(t: Seq<nat>, x: nat, e: nat)
    requires
        e >= 1,
        t.len() == 0 || t.last() != x,
    ensures
        factors_text(Seq::empty()) == Seq::<char>::empty(),
        factors_text(t + Seq::new(e, |i: int| x)) == (if t.len() == 0 {
            Seq::empty()
        } else {
            factors_text(t) + seq![' ', '×', ' ']
        }) + grouped(x) + (if e == 1 {
            Seq::empty()
        } else {
            seq!['^'] + decimal(e)
        }),
{
    reveal_strlit(" × ");
    reveal_strlit("^");
    lemma_runs_push(t, x, e);
    let rs = runs(t);
    assert(rs.push((x, e)).drop_last() =~= rs);
    assert(runs(Seq::<nat>::empty()).len() == 0);
    if t.len() > 0 {
        assert(rs.len() > 0);
    } else {
        assert(rs.len() == 0);
    }
    assert(power_text((x, e)) =~= grouped(x) + (if e == 1 {
        Seq::empty()
    } else {
        seq!['^'] + decimal(e)
    }));
    assert(" × "@ =~= seq![' ', '×', ' ']);
    assert(factors_text(t + Seq::new(e, |i: int| x)) =~= (if t.len() == 0 {
        Seq::empty()
    } else {
        factors_text(t) + seq![' ', '×', ' ']
    }) + grouped(x) + (if e == 1 {
        Seq::empty()
    } else {
        seq!['^'] + decimal(e)
    }));
}

/// The greatest number of a sequence is in it, and none is greater.
proof fn lemma_greatest(s: Seq<nat>)
    ensures
        forall|i: int| 0 <= i < s.len() ==> #[trigger] s[i] <= greatest(s),
        s.len() > 0 ==> s.contains(greatest(s)),
        s.len() == 0 ==> greatest(s) == 0,
    decreases s.len(),
{
    if s.len() > 0 {
        let t = s.drop_last();
        lemma_greatest(t);
        assert forall|i: int| 0 <= i < s.len() implies #[trigger] s[i] <= greatest(s) by {
            if i < t.len() {
                assert(s[i] == t[i]);
            }
        }
        if greatest(t) > s.last() {
            let i = choose|i: int| 0 <= i < t.len() && t[i] == greatest(t);
            assert(s[i] == greatest(s));
        } else {
            assert(s[s.len() - 1] == greatest(s));
        }
    }
}

/// Law: a single factor is called a prime. Any other factors are graded by bounds on
/// all of them: `trivial` below a thousand, `easy` below a million, `medium` below a
/// billion, and `hard` from there on.
pub proof fn law_difficulty_grades(s: Seq<nat>)
    ensures
        "prime"@.is_prefix_of(difficulty_text(s)) <==> s.len() == 1,
        s.len() == 1 ==> difficulty_text(s) == "prime — Miller-Rabin deterministic test"@,
        s.len() != 1 ==> ("trivial"@.is_prefix_of(difficulty_text(s)) <==> forall|i: int|
            0 <= i < s.len() ==> #[trigger] s[i] < 1_000),
        s.len() != 1 ==> ("easy"@.is_prefix_of(difficulty_text(s)) <==> (exists|i: int|
            0 <= i < s.len() && #[trigger] s[i] >= 1_000) && forall|i: int|
            0 <= i < s.len() ==> #[trigger] s[i] < 1_000_000),
        s.len() != 1 ==> ("medium"@.is_prefix_of(difficulty_text(s)) <==> (exists|i: int|
            0 <= i < s.len() && #[trigger] s[i] >= 1_000_000) && forall|i: int|
            0 <= i < s.len() ==> #[trigger] s[i] < 1_000_000_000),
        s.len() != 1 ==> ("hard"@.is_prefix_of(difficulty_text(s)) <==> exists|i: int|
            0 <= i < s.len() && #[trigger] s[i] >= 1_000_000_000),
{
    reveal_strlit("prime");
    reveal_strlit("trivial");
    reveal_strlit("easy");
    reveal_strlit("medium");
    reveal_strlit("hard");
    reveal_strlit("prime — Miller-Rabin deterministic test");
    reveal_strlit("trivial (largest factor: ");
    reveal_strlit("easy (largest factor: ");
    reveal_strlit("medium (largest factor: ");
    reveal_strlit("hard (largest factor: ");
    let text = difficulty_text(s);
    let m = greatest(s);
    lemma_greatest(s);
    assert("prime"@[0] == 'p' && "trivial"@[0] == 't' && "easy"@[0] == 'e' && "medium"@[0] == 'm'
        && "hard"@[0] == 'h');
    lemma_prefix_start("prime"@, text);
    lemma_prefix_start("trivial"@, text);
    lemma_prefix_start("easy"@, text);
    lemma_prefix_start("medium"@, text);
    lemma_prefix_start("hard"@, text);
    if s.len() == 1 {
        assert("prime"@ =~= text.subrange(0, 5));
    } else {
        if m < 1_000 {
            assert("trivial"@ =~= text.subrange(0, 7));
        } else if m < 1_000_000 {
            assert("easy"@ =~= text.subrange(0, 4));
        } else if m < 1_000_000_000 {
            assert("medium"@ =~= text.subrange(0, 6));
        } else {
            assert("hard"@ =~= text.subrange(0, 4));
        }
        if s.len() > 0 {
            let i = choose|i: int| 0 <= i < s.len() && s[i] == m;
            assert(s[i] == m);
        }
    }
}

proof fn lemma_prefix_start(p: Seq<char>, text: Seq<char>)
    requires
        p.len() > 0,
        text.len() > 0,
    ensures
        p.is_prefix_of(text) ==> p[0] == text[0],
{
    if p.is_prefix_of(text) {
        assert(p[0] == text.subrange(0, p.len() as int)[0]);
    }
}

/// Law: the text on factors other than a single one says how many digits the greatest
/// has, where `m` is that factor, or zero where there is none.
pub proof fn law_difficulty_digits(s: Seq<nat>, m: nat, d: nat)
    requires
        s.len() != 1,
        s.len() == 0 ==> m == 0,
        s.len() > 0 ==> s.contains(m),
        forall|i: int| 0 <= i < s.len() ==> #[trigger] s[i] <= m,
        d >= 1,
        m < pow(10, d),
        d > 1 ==> pow(10, (d - 1) as nat) <= m,
    ensures
        exists|word: Seq<char>|
            difficulty_text(s) == #[trigger] (word + " (largest factor: "@) + decimal(d)
                + " digits)"@,
{
    reveal_strlit("trivial");
    reveal_strlit("easy");
    reveal_strlit("medium");
    reveal_strlit("hard");
    reveal_strlit(" (largest factor: ");
    reveal_strlit("trivial (largest factor: ");
    reveal_strlit("easy (largest factor: ");
    reveal_strlit("medium (largest factor: ");
    reveal_strlit("hard (largest factor: ");
    lemma_greatest(s);
    assert(greatest(s) == m) by {
        if s.len() > 0 {
            let i = choose|i: int| 0 <= i < s.len() && s[i] == greatest(s);
            assert(s[i] <= m);
            let j = choose|j: int| 0 <= j < s.len() && s[j] == m;
            assert(s[j] <= greatest(s));
        }
    }
    law_decimal(m);
    let len = decimal(m).len();
    if len < d {
        lemma_pow_increases(10, len, (d - 1) as nat);
    }
    if d < len {
        lemma_pow_increases(10, d, (len - 1) as nat);
    }
    assert("trivial"@ + " (largest factor: "@ =~= "trivial (largest factor: "@);
    assert("easy"@ + " (largest factor: "@ =~= "easy (largest factor: "@);
    assert("medium"@ + " (largest factor: "@ =~= "medium (largest factor: "@);
    assert("hard"@ + " (largest factor: "@ =~= "hard (largest factor: "@);
    let word = if m < 1_000 {
        "trivial"@
    } else if m < 1_000_000 {
        "easy"@
    } else if m < 1_000_000_000 {
        "medium"@
    } else {
        "hard"@
    };
    assert(difficulty_text(s) == (word + " (largest factor: "@) + decimal(d) + " digits)"@);
}

/// Law: a number has `d` digits if it is below the `d`-th power of ten and not below the
/// one before.
pub proof fn law_digit_count(n: nat, d: nat)
    requires
        d >= 1,
        n < pow(10, d),
        d > 1 ==> pow(10, (d - 1) as nat) <= n,
    ensures
        decimal(n).len() == d,
{
    law_decimal(n);
    let len = decimal(n).len();
    if len < d {
        lemma_pow_increases(10, len, (d - 1) as nat);
    }
    if d < len {
        lemma_pow_increases(10, d, (len - 1) as nat);
    }
}

/// Law: what stands behind the last comma of a formatted number are its last three
/// digits, and what stands before it is the number of thousands, formatted.
pub proof fn law_grouped_step(a: nat, b: nat)
    requires
        a >= 1,
        b < 1_000,
    ensures
        grouped(1_000 * a + b) == grouped(a) + seq![
            ',',
            digit_char(b / 100),
            digit_char(b / 10 % 10),
            digit_char(b % 10),
        ],
{
    let n = 1_000 * a + b;
    let ds = decimal(n);
    lemma_decimal_len(a);
    assert(n / 10 == 100 * a + b / 10);
    assert(n / 10 / 10 == 10 * a + b / 100);
    assert(n / 10 / 10 / 10 == a);
    assert(n % 10 == b % 10);
    assert(n / 10 % 10 == b / 10 % 10);
    assert(n / 10 / 10 % 10 == b / 100);
    reveal_with_fuel(decimal, 4);
    assert(ds =~= decimal(a).push(digit_char(b / 100)).push(digit_char(b / 10 % 10)).push(
        digit_char(b % 10),
    ));
    let m = ds.len() - 3;
    assert(ds.take(m) =~= decimal(a));
    assert(grouped(n) =~= grouped(a) + seq![
        ',',
        digit_char(b / 100),
        digit_char(b / 10 % 10),
        digit_char(b % 10),
    ]);
}

/// Law: a number below a thousand has no comma.
pub proof fn law_grouped_small(n: nat)
    requires
        n < 1_000,
    ensures
        grouped(n) == decimal(n),
{
    reveal_with_fuel(decimal, 4);
    assert(decimal(n).len() <= 3);
}

} // verus!
