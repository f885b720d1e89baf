//! Aggregation and normalization of per-position resolver output, and
//! the blended cost ratio.
//!
//! For each portfolio position the resolver runs from an empty
//! accumulator; positions that fail are collected so that every bad ISIN
//! is surfaced, and the whole analysis fails afterwards if any position
//! failed. Successful contributions are merged additively, turned into
//! percentages, sorted descending with ties kept in insertion order, and
//! a trailing "Unknown" entry captures the shortfall to one hundred
//! percent; a total beyond one hundred percent is an error.

use vstd::prelude::*;
use crate::weights::{WEIGHT_CAP, WEIGHT_ONE, mul_weight, mul_weight_spec, add_weight, add_weight_spec};
use crate::wmap::{WeightMap, kv_view, merge_spec, sum_weights};
use crate::security::{Exposure, Portfolio, Registry, Security, reg_find, lemma_reg_find_from_some};
use crate::resolve::{ResolveError, resolve, resolve_spec};

verus! {

/// View of collected position failures: each ISIN as its characters.
pub open spec fn errs_view(s: Seq<(String, ResolveError)>) -> Seq<(Seq<char>, ResolveError)> {
    s.map_values(|p: (String, ResolveError)| (p.0@, p.1))
}

/// Why a whole analysis failed.
#[derive(Debug)]
pub enum AnalyzeError {
    /// Positions that could not be resolved, with each offending ISIN,
    /// in portfolio order.
    Positions(Vec<(String, ResolveError)>),
    /// The resolved percentages total more than one hundred percent,
    /// which signals malformed composition weights upstream.
    OverAllocation(u128),
}

/// Ghost-level analysis failure.
pub enum AnalyzeFail {
    Positions(Seq<(Seq<char>, ResolveError)>),
    OverAllocation(int),
}

/// Folding the portfolio from position `i` on: each position is resolved
/// from an empty accumulator and merged into `acc`; a failing position
/// is recorded in `errs` and skipped.
pub open spec fn collect_positions(
    reg: Seq<(String, Security)>,
    port: Seq<(String, u64)>,
    dim: Exposure,
    i: int,
    acc: Seq<(Seq<char>, u64)>,
    errs: Seq<(Seq<char>, ResolveError)>,
) -> (Seq<(Seq<char>, u64)>, Seq<(Seq<char>, ResolveError)>)
    decreases port.len() - i,
{
    if i < 0 || i >= port.len() {
        (acc, errs)
    } else {
        match resolve_spec(reg, dim, port[i].0@, port[i].1) {
            Err(e) => collect_positions(reg, port, dim, i + 1, acc, errs.push((port[i].0@, e))),
            Ok(m) => match merge_spec(acc, m, 0) {
                None => collect_positions(
                    reg,
                    port,
                    dim,
                    i + 1,
                    acc,
                    errs.push((port[i].0@, ResolveError::WeightOverflow)),
                ),
                Some(a2) => collect_positions(reg, port, dim, i + 1, a2, errs),
            },
        }
    }
}

/// Every weight fraction turned into a percentage.
pub open spec fn to_percentages(m: Seq<(Seq<char>, u64)>) -> Seq<(Seq<char>, u64)> {
    m.map_values(|p: (Seq<char>, u64)| (p.0, (p.1 * 100) as u64))
}

/// Insertion into a descending run: a strictly larger value goes in
/// front of the first smaller one, so equal values keep their old order.
pub open spec fn insert_desc(
    s: Seq<(Seq<char>, u64)>,
    x: (Seq<char>, u64),
) -> Seq<(Seq<char>, u64)>
    decreases s.len(),
{
    if s.len() == 0 {
        seq![x]
    } else if x.1 > s[0].1 {
        seq![x] + s
    } else {
        seq![s[0]] + insert_desc(s.drop_first(), x)
    }
}

/// Stable descending sort by value: ties stay in input order.
pub open spec fn sort_desc(s: Seq<(Seq<char>, u64)>) -> Seq<(Seq<char>, u64)>
    decreases s.len(),
{
    if s.len() == 0 {
        Seq::<(Seq<char>, u64)>::empty()
    } else {
        insert_desc(sort_desc(s.drop_last()), s.last())
    }
}

/// The whole analysis of one dimension: resolve and merge every
/// position, fail if any position failed, turn the merged weights into
/// percentages, sort them descending, and close the gap to one hundred
/// percent with a trailing "Unknown" entry; a total beyond one hundred
/// percent fails instead.
pub open spec fn analyze_spec(
    reg: Seq<(String, Security)>,
    port: Seq<(String, u64)>,
    dim: Exposure,
) -> Result<Seq<(Seq<char>, u64)>, AnalyzeFail> {
    let (acc, errs) = collect_positions(
        reg,
        port,
        dim,
        0,
        Seq::<(Seq<char>, u64)>::empty(),
        Seq::<(Seq<char>, ResolveError)>::empty(),
    );
    if errs.len() > 0 {
        Err(AnalyzeFail::Positions(errs))
    } else {
        let pcts = to_percentages(acc);
        let total = sum_weights(pcts);
        if total > 100 * WEIGHT_ONE {
            Err(AnalyzeFail::OverAllocation(total))
        } else if total < 100 * WEIGHT_ONE {
            Ok(sort_desc(pcts).push(("Unknown"@, (100 * WEIGHT_ONE - total) as u64)))
        } else {
            Ok(sort_desc(pcts))
        }
    }
}

/// Inserting at the first position whose value is strictly smaller is
/// exactly what [`insert_desc`] builds.
pub proof fn lemma_insert_desc_at(s: Seq<(Seq<char>, u64)>, x: (Seq<char>, u64), j: int)
    requires
        0 <= j <= s.len(),
        forall|l: int| 0 <= l < j ==> s[l].1 >= x.1,
        j < s.len() ==> x.1 > s[j].1,
    ensures
        insert_desc(s, x) == s.take(j) + seq![x] + s.skip(j),
    decreases j,
{
    if s.len() == 0 {
        assert(s.take(0) + seq![x] + s.skip(0) =~= seq![x]);
    } else if j == 0 {
        assert(s.take(0) + seq![x] + s.skip(0) =~= seq![x] + s);
    } else {
        lemma_insert_desc_at(s.drop_first(), x, j - 1);
        assert(s.take(j) + seq![x] + s.skip(j) =~= seq![s[0]] + (s.drop_first().take(j - 1)
            + seq![x] + s.drop_first().skip(j - 1)));
    }
}

/// Builds the stable descending order of `v` by value.
pub fn sorted_desc(v: &Vec<(String, u64)>) -> (r: Vec<(String, u64)>)
    ensures
        kv_view(r@) == sort_desc(kv_view(v@)),
{
    let n = v.len();
    let mut out: Vec<(String, u64)> = Vec::new();
    let mut i: usize = 0;
    while i < n
        invariant
            n == v@.len(),
            0 <= i <= n,
            kv_view(out@) == sort_desc(kv_view(v@).take(i as int)),
        decreases n - i,
    {
        let x = &v[i];
        let ghost sv = kv_view(out@);
        let ghost xv = (v@[i as int].0@, v@[i as int].1);
        let m = out.len();
        let mut j: usize = 0;
        while j < m && out[j].1 >= x.1
            invariant
                m == out@.len(),
                0 <= j <= m,
                sv == kv_view(out@),
                xv.1 == v@[i as int].1,
                x.1 == xv.1,
                forall|l: int| 0 <= l < j ==> sv[l].1 >= xv.1,
            decreases m - j,
        {
            assert(sv[j as int].1 == out@[j as int].1);
            j += 1;
        }
        proof {
            if j < m {
                assert(sv[j as int].1 == out@[j as int].1);
            }
            lemma_insert_desc_at(sv, xv, j as int);
        }
        out.insert(j, (x.0.clone(), x.1));
        proof {
            assert(kv_view(out@) =~= sv.take(j as int) + seq![xv] + sv.skip(j as int));
            assert(kv_view(v@).take(i as int + 1).drop_last() =~= kv_view(v@).take(i as int));
            assert(kv_view(v@).take(i as int + 1).last() == xv);
        }
        i += 1;
    }
    proof {
        assert(kv_view(v@).take(n as int) =~= kv_view(v@));
    }
    out
}

/// Computes the portfolio's aggregate exposure breakdown along one
/// dimension: an ordered sequence of label and percentage pairs,
/// descending by percentage, whose values close to exactly one hundred
/// percent through the trailing "Unknown" residual. Fails with every
/// unresolvable position, or with the total when it passes one hundred
/// percent.
pub fn analyze_exposure(
    registry: &Registry,
    portfolio: &Portfolio,
    exposure: Exposure,
) -> (r: Result<Vec<(String, u64)>, AnalyzeError>)
    requires
        registry.wf(),
        portfolio.wf(),
    ensures
        match analyze_spec(registry.entries@, portfolio.positions@, exposure) {
            Ok(m) => r matches Ok(v) && kv_view(v@) == m,
            Err(AnalyzeFail::Positions(es)) => r matches Err(e) && (e matches
                AnalyzeError::Positions(ev) && errs_view(ev@) == es),
            Err(AnalyzeFail::OverAllocation(t)) => r matches Err(e) && (e matches
                AnalyzeError::OverAllocation(t2) && t2 == t),
        },
        r matches Ok(v) ==> sum_weights(kv_view(v@)) == 100 * WEIGHT_ONE,
        r matches Ok(v) ==> (forall|a: int, b: int|
            0 <= a < b < kv_view(v@).len() - 1 ==> kv_view(v@)[a].1 >= kv_view(v@)[b].1),
{
    let ghost regv = registry.entries@;
    let ghost portv = portfolio.positions@;
    let mut acc = WeightMap::new();
    let mut errs: Vec<(String, ResolveError)> = Vec::new();
    proof {
        assert(errs_view(errs@) =~= Seq::<(Seq<char>, ResolveError)>::empty());
    }
    let n = portfolio.positions.len();
    let mut i: usize = 0;
    while i < n
        invariant
            registry.wf(),
            portfolio.wf(),
            regv == registry.entries@,
            portv == portfolio.positions@,
            n == portv.len(),
            0 <= i <= n,
            acc.wf(),
            collect_positions(
                regv,
                portv,
                exposure,
                0,
                Seq::<(Seq<char>, u64)>::empty(),
                Seq::<(Seq<char>, ResolveError)>::empty(),
            ) == collect_positions(regv, portv, exposure, i as int, acc@, errs_view(errs@)),
        decreases n - i,
    {
        let e = &portfolio.positions[i];
        assert(portv[i as int].1 <= WEIGHT_ONE);
        let ghost errs0 = errs_view(errs@);
        match resolve(registry, exposure, &e.0, e.1) {
            Ok(wm) => {
                let mut merged = acc.duplicate();
                let ok = merged.merge_from(&wm);
                if ok {
                    acc = merged;
                } else {
                    errs.push((e.0.clone(), ResolveError::WeightOverflow));
                    proof {
                        assert(errs_view(errs@) =~= errs0.push(
                            (portv[i as int].0@, ResolveError::WeightOverflow),
                        ));
                    }
                }
            },
            Err(re) => {
                errs.push((e.0.clone(), re));
                proof {
                    assert(errs_view(errs@) =~= errs0.push((portv[i as int].0@, re)));
                }
            },
        }
        i += 1;
    }
    if errs.len() > 0 {
        return Err(AnalyzeError::Positions(errs));
    }
    proof {
        assert(errs_view(errs@) =~= Seq::<(Seq<char>, ResolveError)>::empty());
    }
    // Scale the merged fractions into percentages.
    let m = acc.len();
    let mut pcts: Vec<(String, u64)> = Vec::new();
    let mut k: usize = 0;
    while k < m
        invariant
            m == acc@.len(),
            0 <= k <= m,
            acc.wf(),
            kv_view(pcts@) == to_percentages(acc@).take(k as int),
        decreases m - k,
    {
        let (label, w) = acc.pair_at(k);
        assert(acc@[k as int].1 <= WEIGHT_CAP);
        let ghost pv0 = kv_view(pcts@);
        pcts.push((label.clone(), w * 100));
        proof {
            assert(kv_view(pcts@) =~= pv0.push((acc@[k as int].0, (acc@[k as int].1 * 100) as u64)));
            assert(to_percentages(acc@)[k as int] == (acc@[k as int].0, (acc@[k as int].1 * 100) as u64));
            assert(kv_view(pcts@) =~= to_percentages(acc@).take(k as int + 1));
        }
        k += 1;
    }
    proof {
        assert(to_percentages(acc@).take(m as int) =~= to_percentages(acc@));
    }
    // Total of all percentages, exact.
    let ghost pv = kv_view(pcts@);
    proof {
        assert forall|l: int| 0 <= l < pv.len() implies #[trigger] pv[l].1 <= 100 * WEIGHT_CAP by {
            assert(pv[l] == to_percentages(acc@)[l]);
            assert(acc@[l].1 <= WEIGHT_CAP);
        }
    }
    let np = pcts.len();
    let mut total: u128 = 0;
    let mut t: usize = 0;
    while t < np
        invariant
            np == pcts@.len(),
            pv == kv_view(pcts@),
            0 <= t <= np,
            forall|l: int| 0 <= l < pv.len() ==> #[trigger] pv[l].1 <= 100 * WEIGHT_CAP,
            total == sum_weights(pv.take(t as int)),
            total <= (t as int) * (100 * WEIGHT_CAP),
        decreases np - t,
    {
        let e = &pcts[t];
        proof {
            assert(pv[t as int].1 == pcts@[t as int].1);
            assert(pv[t as int].1 <= 100 * WEIGHT_CAP);
            assert((t as int) * (100 * WEIGHT_CAP) + 100 * WEIGHT_CAP == (t as int + 1) * (100
                * WEIGHT_CAP)) by (nonlinear_arith);
            assert((t as int + 1) * (100 * WEIGHT_CAP) <= (np as int) * (100 * WEIGHT_CAP))
                by (nonlinear_arith)
                requires t as int + 1 <= np as int;
            assert((np as int) * (100 * WEIGHT_CAP) < u128::MAX) by (nonlinear_arith)
                requires np as int <= 0xffff_ffff_ffff_ffffu64 as int;
        }
        total = total + (e.1 as u128);
        proof {
            assert(pv.take(t as int + 1).drop_last() =~= pv.take(t as int));
        }
        t += 1;
    }
    proof {
        assert(pv.take(np as int) =~= pv);
    }
    let sorted = sorted_desc(&pcts);
    let hundred: u128 = 100_000_000;
    assert(hundred == 100 * WEIGHT_ONE);
    if total > hundred {
        Err(AnalyzeError::OverAllocation(total))
    } else if total < hundred {
        let residual: u64 = (hundred - total) as u64;
        let mut v = sorted;
        v.push((String::from_str("Unknown"), residual));
        proof {
            assert(kv_view(v@) =~= sort_desc(to_percentages(acc@)).push(
                ("Unknown"@, (100 * WEIGHT_ONE - sum_weights(to_percentages(acc@))) as u64),
            ));
            crate::laws::lemma_analyze_total(regv, portv, exposure);
            crate::laws::lemma_sort_desc_sorted(to_percentages(acc@));
        }
        Ok(v)
    } else {
        proof {
            crate::laws::lemma_analyze_total(regv, portv, exposure);
            crate::laws::lemma_sort_desc_sorted(to_percentages(acc@));
        }
        Ok(sorted)
    }
}

/// Fold for the blended cost ratio from position `i` on: each position's
/// cost ratio scaled by its weight, accumulated; the first unregistered
/// ISIN fails the whole computation.
pub open spec fn ter_spec(
    reg: Seq<(String, Security)>,
    port: Seq<(String, u64)>,
    i: int,
    acc: u64,
) -> Result<u64, ResolveError>
    decreases port.len() - i,
{
    if i < 0 || i >= port.len() {
        Ok(acc)
    } else {
        match reg_find(reg, port[i].0@) {
            None => Err(ResolveError::UnknownSecurity),
            Some(j) => match add_weight_spec(acc, mul_weight_spec(reg[j].1.ter, port[i].1)) {
                None => Err(ResolveError::WeightOverflow),
                Some(a2) => ter_spec(reg, port, i + 1, a2),
            },
        }
    }
}

/// Computes the portfolio's blended cost ratio: the sum over positions
/// of the security's cost ratio scaled by the position's weight. Fails
/// on the first position whose ISIN is not registered.
pub fn calculate_ter(registry: &Registry, portfolio: &Portfolio) -> (r: Result<u64, ResolveError>)
    requires
        registry.wf(),
        portfolio.wf(),
    ensures
        r == ter_spec(registry.entries@, portfolio.positions@, 0, 0),
{
    let ghost regv = registry.entries@;
    let ghost portv = portfolio.positions@;
    let n = portfolio.positions.len();
    let mut total: u64 = 0;
    let mut i: usize = 0;
    while i < n
        invariant
            registry.wf(),
            portfolio.wf(),
            regv == registry.entries@,
            portv == portfolio.positions@,
            n == portv.len(),
            0 <= i <= n,
            total <= WEIGHT_CAP,
            ter_spec(regv, portv, 0, 0) == ter_spec(regv, portv, i as int, total),
        decreases n - i,
    {
        let e = &portfolio.positions[i];
        assert(portv[i as int].1 <= WEIGHT_ONE);
        match registry.lookup(&e.0) {
            None => {
                return Err(ResolveError::UnknownSecurity);
            },
            Some(sec) => {
                proof {
                    let j = reg_find(regv, portv[i as int].0@)->Some_0;
                    lemma_reg_find_from_some(regv, portv[i as int].0@, 0, j);
                    assert(regv[j].1.wf());
                }
                assert(sec.wf());
                let part = mul_weight(sec.ter, e.1);
                match add_weight(total, part) {
                    None => {
                        return Err(ResolveError::WeightOverflow);
                    },
                    Some(t2) => {
                        total = t2;
                    },
                }
            },
        }
        i += 1;
    }
    Ok(total)
}

} // verus!
