//! Properties of the engine that hold for every input, stated and
//! proved over the specification functions the public contracts use.

use vstd::prelude::*;
use crate::weights::{WEIGHT_CAP, WEIGHT_ONE, mul_weight_spec};
use crate::wmap::{add_capped_spec, sum_weights, unique_keys, weights_bounded, lemma_find_none_intro};
use crate::security::{Exposure, Security, exposure_of, reg_find};
use crate::resolve::{ResolveError, direct_entries, resolve_holdings, resolve_sec, resolve_spec};
use crate::analyze::{AnalyzeFail, analyze_spec, collect_positions, insert_desc, sort_desc, to_percentages};

verus! {

/// A composition map scaled by a base weight, entry for entry.
pub open spec fn scale_map(es: Seq<(Seq<char>, u64)>, base: u64) -> Seq<(Seq<char>, u64)> {
    es.map_values(|p: (Seq<char>, u64)| (p.0, mul_weight_spec(p.1, base)))
}

/// The product of two unit fractions is a unit fraction.
pub proof fn lemma_mul_weight_bound(a: u64, b: u64)
    requires
        a <= WEIGHT_ONE,
        b <= WEIGHT_ONE,
    ensures
        mul_weight_spec(a, b) <= WEIGHT_ONE,
        mul_weight_spec(a, b) == (a * b) / (WEIGHT_ONE as int),
{
    assert((a * b) / (WEIGHT_ONE as int) <= WEIGHT_ONE && (a * b) / (WEIGHT_ONE as int) >= 0)
        by (nonlinear_arith)
        requires a <= WEIGHT_ONE && b <= WEIGHT_ONE && WEIGHT_ONE > 0;
}

/// Adding fresh labels one after the other to an accumulator that holds
/// exactly the scaled earlier entries appends the scaled rest.
proof fn lemma_direct_entries_fresh(
    reg: Seq<(String, Security)>,
    dim: Exposure,
    es: Seq<(Seq<char>, u64)>,
    i: int,
    base: u64,
)
    requires
        unique_keys(es),
        weights_bounded(es, WEIGHT_ONE),
        base <= WEIGHT_ONE,
        0 <= i <= es.len(),
        dim is Holding ==> es.len() == 0,
    ensures
        direct_entries(reg, dim, es, i, base, scale_map(es, base).take(i)) == Ok::<
            Seq<(Seq<char>, u64)>,
            ResolveError,
        >(scale_map(es, base)),
    decreases es.len() - i,
{
    let sm = scale_map(es, base);
    if i == es.len() {
        assert(sm.take(i) =~= sm);
    } else {
        let acc = sm.take(i);
        assert forall|l: int| 0 <= l < acc.len() implies acc[l].0 != es[i].0 by {
            assert(acc[l] == sm[l]);
            assert(sm[l].0 == es[l].0);
        }
        lemma_find_none_intro(acc, es[i].0, 0);
        lemma_mul_weight_bound(es[i].1, base);
        let w = mul_weight_spec(es[i].1, base);
        assert(add_capped_spec(acc, es[i].0, w, WEIGHT_CAP) == Some(acc.push((es[i].0, w))));
        assert(acc.push((es[i].0, w)) =~= sm.take(i + 1));
        lemma_direct_entries_fresh(reg, dim, es, i + 1, base);
    }
}

/// A security with no holdings resolves, for any dimension, to exactly
/// its own composition map for that dimension scaled by the base
/// weight: no recursion contributes anything.
pub proof fn lemma_resolve_without_holdings(
    reg: Seq<(String, Security)>,
    dim: Exposure,
    idx: int,
    base: u64,
)
    requires
        0 <= idx < reg.len(),
        reg_find(reg, reg[idx].0@) == Some(idx),
        reg[idx].1.wf(),
        reg[idx].1.holding@.len() == 0,
        base <= WEIGHT_ONE,
    ensures
        resolve_spec(reg, dim, reg[idx].0@, base) == Ok::<Seq<(Seq<char>, u64)>, ResolveError>(
            scale_map(exposure_of(reg[idx].1, dim), base),
        ),
{
    let visited = Seq::new(reg.len(), |i: int| false);
    assert(!visited[idx]);
    let v2 = visited.update(idx, true);
    let empty = Seq::<(Seq<char>, u64)>::empty();
    assert(resolve_holdings(reg, dim, reg[idx].1.holding@, 0, base, v2, empty) == Ok::<
        Seq<(Seq<char>, u64)>,
        ResolveError,
    >(empty));
    let es = exposure_of(reg[idx].1, dim);
    assert(unique_keys(es) && weights_bounded(es, WEIGHT_ONE)) by {
        match dim {
            Exposure::Holding => assert(es == reg[idx].1.holding@),
            Exposure::Sector => assert(es == reg[idx].1.sector@),
            Exposure::Country => assert(es == reg[idx].1.country@),
            Exposure::Region => assert(es == reg[idx].1.region@),
            Exposure::Market => assert(es == reg[idx].1.market@),
        }
    }
    assert(scale_map(es, base).take(0) =~= empty);
    lemma_direct_entries_fresh(reg, dim, es, 0, base);
}

/// The sum over a sequence with one pair put in front.
proof fn lemma_sum_cons(x: (Seq<char>, u64), s: Seq<(Seq<char>, u64)>)
    ensures
        sum_weights(seq![x] + s) == x.1 + sum_weights(s),
    decreases s.len(),
{
    let c = seq![x] + s;
    if s.len() == 0 {
        assert(c =~= seq![x]);
        assert(c.drop_last() =~= Seq::<(Seq<char>, u64)>::empty());
        assert(sum_weights(c.drop_last()) == 0);
        assert(sum_weights(c) == sum_weights(c.drop_last()) + c.last().1);
        assert(c.last() == x);
        assert(sum_weights(s) == 0);
    } else {
        lemma_sum_cons(x, s.drop_last());
        assert(c.drop_last() =~= seq![x] + s.drop_last());
        assert(c.last() == s.last());
        assert(sum_weights(c) == sum_weights(c.drop_last()) + c.last().1);
        assert(sum_weights(s) == sum_weights(s.drop_last()) + s.last().1);
    }
}

/// Inserting one pair into a descending run adds its value to the sum.
proof fn lemma_insert_desc_sum(s: Seq<(Seq<char>, u64)>, x: (Seq<char>, u64))
    ensures
        sum_weights(insert_desc(s, x)) == sum_weights(s) + x.1,
    decreases s.len(),
{
    if s.len() == 0 {
        assert(insert_desc(s, x) == seq![x]);
        assert(seq![x].drop_last() =~= Seq::<(Seq<char>, u64)>::empty());
        assert(sum_weights(seq![x].drop_last()) == 0);
        assert(sum_weights(seq![x]) == sum_weights(seq![x].drop_last()) + seq![x].last().1);
        assert(seq![x].last() == x);
        assert(sum_weights(s) == 0);
    } else if x.1 > s[0].1 {
        lemma_sum_cons(x, s);
    } else {
        lemma_insert_desc_sum(s.drop_first(), x);
        lemma_sum_cons(s[0], insert_desc(s.drop_first(), x));
        lemma_sum_cons(s[0], s.drop_first());
        assert(seq![s[0]] + s.drop_first() =~= s);
    }
}

/// Sorting does not change the sum of the values.
pub proof fn lemma_sort_desc_sum(s: Seq<(Seq<char>, u64)>)
    ensures
        sum_weights(sort_desc(s)) == sum_weights(s),
    decreases s.len(),
{
    if s.len() > 0 {
        lemma_sort_desc_sum(s.drop_last());
        lemma_insert_desc_sum(sort_desc(s.drop_last()), s.last());
    }
}

/// A sum of unsigned values is never negative.
proof fn lemma_sum_nonneg(s: Seq<(Seq<char>, u64)>)
    ensures
        sum_weights(s) >= 0,
    decreases s.len(),
{
    if s.len() > 0 {
        lemma_sum_nonneg(s.drop_last());
    }
}

/// Whenever the analysis of a dimension succeeds, its percentages sum
/// to exactly one hundred percent: the shortfall of the resolved total
/// is captured by the trailing "Unknown" residual.
pub proof fn lemma_analyze_total(
    reg: Seq<(String, Security)>,
    port: Seq<(String, u64)>,
    dim: Exposure,
)
    requires
        analyze_spec(reg, port, dim) is Ok,
    ensures
        sum_weights(analyze_spec(reg, port, dim)->Ok_0) == 100 * WEIGHT_ONE,
{
    let folded = collect_positions(
        reg,
        port,
        dim,
        0,
        Seq::<(Seq<char>, u64)>::empty(),
        Seq::<(Seq<char>, ResolveError)>::empty(),
    );
    let acc = folded.0;
    let pcts = to_percentages(acc);
    let total = sum_weights(pcts);
    lemma_sort_desc_sum(pcts);
    lemma_sum_nonneg(pcts);
    let sorted = sort_desc(pcts);
    if total < 100 * WEIGHT_ONE {
        let r = ("Unknown"@, (100 * WEIGHT_ONE - total) as u64);
        assert(sorted.push(r).drop_last() =~= sorted);
        assert(sorted.push(r).last() == r);
    }
}

/// Values never rise along the sequence.
pub open spec fn descending_order(s: Seq<(Seq<char>, u64)>) -> bool {
    forall|a: int, b: int| 0 <= a < b < s.len() ==> s[a].1 >= s[b].1
}

/// Insertion keeps every value under a bound that the run and the new
/// pair already respect.
proof fn lemma_insert_desc_bound(s: Seq<(Seq<char>, u64)>, x: (Seq<char>, u64), c: u64)
    requires
        x.1 <= c,
        forall|i: int| 0 <= i < s.len() ==> s[i].1 <= c,
    ensures
        forall|i: int|
            0 <= i < insert_desc(s, x).len() ==> #[trigger] insert_desc(s, x)[i].1 <= c,
    decreases s.len(),
{
    let r = insert_desc(s, x);
    if s.len() == 0 {
        assert forall|i: int| 0 <= i < r.len() implies #[trigger] r[i].1 <= c by {
            assert(r[i] == x);
        }
    } else if x.1 > s[0].1 {
        assert forall|i: int| 0 <= i < r.len() implies #[trigger] r[i].1 <= c by {
            if i > 0 {
                assert(r[i] == s[i - 1]);
            }
        }
    } else {
        lemma_insert_desc_bound(s.drop_first(), x, c);
        let t = insert_desc(s.drop_first(), x);
        assert forall|i: int| 0 <= i < r.len() implies #[trigger] r[i].1 <= c by {
            if i > 0 {
                assert(r[i] == t[i - 1]);
            }
        }
    }
}

/// Insertion into a descending run keeps it descending.
proof fn lemma_insert_desc_sorted(s: Seq<(Seq<char>, u64)>, x: (Seq<char>, u64))
    requires
        descending_order(s),
    ensures
        descending_order(insert_desc(s, x)),
    decreases s.len(),
{
    let r = insert_desc(s, x);
    if s.len() == 0 {
    } else if x.1 > s[0].1 {
        assert forall|a: int, b: int| 0 <= a < b < r.len() implies r[a].1 >= r[b].1 by {
            if a == 0 {
                assert(r[b] == s[b - 1]);
                assert(s[0].1 >= s[b - 1].1);
            } else {
                assert(r[a] == s[a - 1]);
                assert(r[b] == s[b - 1]);
            }
        }
    } else {
        let t = insert_desc(s.drop_first(), x);
        assert forall|i: int| 0 <= i < s.drop_first().len() implies s.drop_first()[i].1
            <= s[0].1 by {
            assert(s.drop_first()[i] == s[i + 1]);
        }
        lemma_insert_desc_sorted(s.drop_first(), x);
        lemma_insert_desc_bound(s.drop_first(), x, s[0].1);
        assert forall|a: int, b: int| 0 <= a < b < r.len() implies r[a].1 >= r[b].1 by {
            if a == 0 {
                assert(r[b] == t[b - 1]);
                assert(t[b - 1].1 <= s[0].1);
            } else {
                assert(r[a] == t[a - 1]);
                assert(r[b] == t[b - 1]);
            }
        }
    }
}

/// The sorted breakdown really is descending: the percentages the
/// analysis reports, before any trailing residual, never rise.
pub proof fn lemma_sort_desc_sorted(s: Seq<(Seq<char>, u64)>)
    ensures
        descending_order(sort_desc(s)),
    decreases s.len(),
{
    if s.len() > 0 {
        lemma_sort_desc_sorted(s.drop_last());
        lemma_insert_desc_sorted(sort_desc(s.drop_last()), s.last());
    }
}

/// The analysis is a function of the registry, the portfolio and the
/// dimension alone: two runs over the same unmutated inputs give
/// identical ordered output.
pub proof fn lemma_analyze_deterministic(
    reg: Seq<(String, Security)>,
    port: Seq<(String, u64)>,
    dim: Exposure,
    r1: Seq<(Seq<char>, u64)>,
    r2: Seq<(Seq<char>, u64)>,
)
    requires
        analyze_spec(reg, port, dim) == Ok::<Seq<(Seq<char>, u64)>, AnalyzeFail>(r1),
        analyze_spec(reg, port, dim) == Ok::<Seq<(Seq<char>, u64)>, AnalyzeFail>(r2),
    ensures
        r1 == r2,
{
}

} // verus!
