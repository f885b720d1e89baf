//! The exposure resolver.
//!
//! Resolving one portfolio position for a dimension walks the security's
//! holdings depth first: a holding that is itself a registered security
//! is expanded recursively with the base weight scaled by the holding's
//! weight, and the security's own composition entries for the requested
//! dimension are then added directly. When the requested dimension is
//! the holdings themselves, entries that were already expanded are
//! skipped so that nothing is counted twice. A holding cycle or a weight
//! accumulation passing the cap is reported as an error; the registry's
//! finite size bounds the recursion because every step marks one more
//! security as being on the current path.

use vstd::prelude::*;
use crate::weights::{WEIGHT_CAP, WEIGHT_ONE, mul_weight, mul_weight_spec};
use crate::wmap::{WeightMap, add_capped_spec};
use crate::security::{Exposure, Registry, Security, exposure_of, reg_find};

verus! {

/// Why a position could not be resolved.
#[derive(Clone, Copy, Debug, PartialEq, Eq, Structural)]
pub enum ResolveError {
    /// The position's ISIN is not registered.
    UnknownSecurity,
    /// A security holds itself, directly or through other securities.
    CyclicHolding,
    /// An accumulated weight passed the cap, so the source weights are
    /// far beyond any whole composition.
    WeightOverflow,
}

/// How many securities are not yet on the current expansion path.
pub open spec fn count_unvisited(v: Seq<bool>) -> nat
    decreases v.len(),
{
    if v.len() == 0 {
        0
    } else {
        count_unvisited(v.drop_last()) + if v.last() {
            0nat
        } else {
            1nat
        }
    }
}

/// Marking one more security as on the path shrinks the unvisited count.
pub proof fn lemma_count_unvisited_update(v: Seq<bool>, i: int)
    requires
        0 <= i < v.len(),
        !v[i],
    ensures
        count_unvisited(v.update(i, true)) < count_unvisited(v),
    decreases v.len(),
{
    if i == v.len() - 1 {
        assert(v.update(i, true).drop_last() =~= v.drop_last());
    } else {
        lemma_count_unvisited_update(v.drop_last(), i);
        assert(v.update(i, true).drop_last() =~= v.drop_last().update(i, true));
    }
}

/// Resolved exposure of the security at `idx`, scaled by `base`, merged
/// into `acc`: its registered holdings are expanded first, then its own
/// entries for `dim` are added directly.
pub open spec fn resolve_sec(
    reg: Seq<(String, Security)>,
    dim: Exposure,
    idx: int,
    base: u64,
    visited: Seq<bool>,
    acc: Seq<(Seq<char>, u64)>,
) -> Result<Seq<(Seq<char>, u64)>, ResolveError>
    decreases count_unvisited(visited), 0int, 0int,
    when 0 <= idx < visited.len()
{
    if visited[idx] {
        Err(ResolveError::CyclicHolding)
    } else {
        let v2 = visited.update(idx, true);
        proof {
            lemma_count_unvisited_update(visited, idx);
        }
        match resolve_holdings(reg, dim, reg[idx].1.holding@, 0, base, v2, acc) {
            Err(e) => Err(e),
            Ok(acc1) => direct_entries(reg, dim, exposure_of(reg[idx].1, dim), 0, base, acc1),
        }
    }
}

/// Expansion of the holdings list `hs` from position `i` on: every
/// holding registered in `reg` is resolved recursively with the base
/// weight scaled by the holding's weight; unregistered holdings are
/// terminal and contribute nothing here.
pub open spec fn resolve_holdings(
    reg: Seq<(String, Security)>,
    dim: Exposure,
    hs: Seq<(Seq<char>, u64)>,
    i: int,
    base: u64,
    visited: Seq<bool>,
    acc: Seq<(Seq<char>, u64)>,
) -> Result<Seq<(Seq<char>, u64)>, ResolveError>
    decreases count_unvisited(visited), 1int, hs.len() - i,
{
    if i < 0 || i >= hs.len() {
        Ok(acc)
    } else {
        match reg_find(reg, hs[i].0) {
            Some(j) => match resolve_sec(reg, dim, j, mul_weight_spec(base, hs[i].1), visited, acc) {
                Err(e) => Err(e),
                Ok(acc2) => resolve_holdings(reg, dim, hs, i + 1, base, visited, acc2),
            },
            None => resolve_holdings(reg, dim, hs, i + 1, base, visited, acc),
        }
    }
}

/// Direct addition of the dimension entries `es` from position `i` on,
/// each scaled by `base`. For the holding dimension an entry that is a
/// registered ISIN was already expanded recursively and is skipped.
pub open spec fn direct_entries(
    reg: Seq<(String, Security)>,
    dim: Exposure,
    es: Seq<(Seq<char>, u64)>,
    i: int,
    base: u64,
    acc: Seq<(Seq<char>, u64)>,
) -> Result<Seq<(Seq<char>, u64)>, ResolveError>
    decreases es.len() - i,
{
    if i < 0 || i >= es.len() {
        Ok(acc)
    } else if dim is Holding && reg_find(reg, es[i].0) is Some {
        direct_entries(reg, dim, es, i + 1, base, acc)
    } else {
        match add_capped_spec(acc, es[i].0, mul_weight_spec(es[i].1, base), WEIGHT_CAP) {
            None => Err(ResolveError::WeightOverflow),
            Some(acc2) => direct_entries(reg, dim, es, i + 1, base, acc2),
        }
    }
}

/// Contribution of one portfolio position: the exposure of the security
/// registered under `isin` along `dim`, scaled by `base`, starting from
/// an empty accumulator and a path containing nothing.
pub open spec fn resolve_spec(
    reg: Seq<(String, Security)>,
    dim: Exposure,
    isin: Seq<char>,
    base: u64,
) -> Result<Seq<(Seq<char>, u64)>, ResolveError> {
    match reg_find(reg, isin) {
        None => Err(ResolveError::UnknownSecurity),
        Some(idx) => resolve_sec(
            reg,
            dim,
            idx,
            base,
            Seq::new(reg.len(), |i: int| false),
            Seq::<(Seq<char>, u64)>::empty(),
        ),
    }
}

/// Resolves the security at `idx` into `acc`, leaving the path marks as
/// they were found.
fn resolve_into(
    reg: &Registry,
    dim: Exposure,
    idx: usize,
    base: u64,
    visited: &mut Vec<bool>,
    acc: &mut WeightMap,
) -> (r: Result<(), ResolveError>)
    requires
        reg.wf(),
        idx < reg.entries@.len(),
        old(visited)@.len() == reg.entries@.len(),
        base <= WEIGHT_ONE,
        old(acc).wf(),
    ensures
        final(visited)@ == old(visited)@,
        final(acc).wf(),
        match resolve_sec(reg.entries@, dim, idx as int, base, old(visited)@, old(acc)@) {
            Ok(m) => r == Ok::<(), ResolveError>(()) && final(acc)@ == m,
            Err(e) => r == Err::<(), ResolveError>(e),
        },
    decreases count_unvisited(visited@),
{
    if visited[idx] {
        return Err(ResolveError::CyclicHolding);
    }
    visited[idx] = true;
    let ghost v2 = visited@;
    let ghost acc0 = acc@;
    proof {
        assert(v2 == old(visited)@.update(idx as int, true));
        assert(reg.entries@[idx as int].1.wf());
    }
    let sec = &reg.entries[idx].1;
    let ghost hs = sec.holding@;
    let n = sec.holding.len();
    let mut i: usize = 0;
    while i < n
        invariant
            reg.wf(),
            idx < reg.entries@.len(),
            *sec == reg.entries@[idx as int].1,
            sec.wf(),
            hs == sec.holding@,
            n == hs.len(),
            0 <= i <= n,
            base <= WEIGHT_ONE,
            visited@ == v2,
            v2 == old(visited)@.update(idx as int, true),
            old(visited)@.len() == reg.entries@.len(),
            old(visited)@[idx as int] == false,
            acc.wf(),
            acc0 == old(acc)@,
            resolve_holdings(reg.entries@, dim, hs, 0, base, v2, acc0) == resolve_holdings(
                reg.entries@,
                dim,
                hs,
                i as int,
                base,
                v2,
                acc@,
            ),
        decreases n - i,
    {
        let (label, w) = sec.holding.pair_at(i);
        assert(w <= WEIGHT_ONE);
        match reg.find_index(label) {
            Some(j) => {
                let b2 = mul_weight(base, w);
                proof {
                    lemma_count_unvisited_update(old(visited)@, idx as int);
                }
                let ghost acc_pre = acc@;
                let res = resolve_into(reg, dim, j, b2, visited, acc);
                match res {
                    Err(e) => {
                        proof {
                            assert(resolve_sec(reg.entries@, dim, j as int, b2, v2, acc_pre)
                                == Err::<Seq<(Seq<char>, u64)>, ResolveError>(e));
                        }
                        visited[idx] = false;
                        proof {
                            assert(visited@ =~= old(visited)@);
                        }
                        return Err(e);
                    },
                    Ok(()) => {},
                }
            },
            None => {},
        }
        i += 1;
    }
    let ghost acc1 = acc@;
    proof {
        assert(resolve_holdings(reg.entries@, dim, hs, 0, base, v2, acc0)
            == Ok::<Seq<(Seq<char>, u64)>, ResolveError>(acc1));
    }
    let es_map = sec.get_exposure(dim);
    let ghost es = es_map@;
    proof {
        assert(es == exposure_of(reg.entries@[idx as int].1, dim));
    }
    let m = es_map.len();
    let mut k: usize = 0;
    while k < m
        invariant
            reg.wf(),
            idx < reg.entries@.len(),
            *sec == reg.entries@[idx as int].1,
            sec.wf(),
            *es_map == sec.map_for(dim),
            es == es_map@,
            m == es.len(),
            0 <= k <= m,
            base <= WEIGHT_ONE,
            visited@ == v2,
            v2 == old(visited)@.update(idx as int, true),
            old(visited)@.len() == reg.entries@.len(),
            old(visited)@[idx as int] == false,
            acc.wf(),
            acc0 == old(acc)@,
            hs == reg.entries@[idx as int].1.holding@,
            resolve_holdings(reg.entries@, dim, hs, 0, base, v2, acc0) == Ok::<
                Seq<(Seq<char>, u64)>,
                ResolveError,
            >(acc1),
            direct_entries(reg.entries@, dim, es, 0, base, acc1) == direct_entries(
                reg.entries@,
                dim,
                es,
                k as int,
                base,
                acc@,
            ),
        decreases m - k,
    {
        let (label, w) = es_map.pair_at(k);
        assert(w <= WEIGHT_ONE);
        let skip = match dim {
            Exposure::Holding => reg.contains(label),
            _ => false,
        };
        if !skip {
            let part = mul_weight(w, base);
            let ok = acc.add(label, part);
            if !ok {
                visited[idx] = false;
                proof {
                    assert(visited@ =~= old(visited)@);
                }
                return Err(ResolveError::WeightOverflow);
            }
        }
        k += 1;
    }
    proof {
        assert(direct_entries(reg.entries@, dim, es, 0, base, acc1)
            == Ok::<Seq<(Seq<char>, u64)>, ResolveError>(acc@));
    }
    visited[idx] = false;
    proof {
        assert(visited@ =~= old(visited)@);
    }
    Ok(())
}

/// Computes one portfolio position's contribution to the requested
/// exposure dimension, scaled by the position's share of the portfolio,
/// expanding registered holdings to arbitrary depth.
pub fn resolve(
    registry: &Registry,
    exposure: Exposure,
    isin: &String,
    base_weight: u64,
) -> (r: Result<WeightMap, ResolveError>)
    requires
        registry.wf(),
        base_weight <= WEIGHT_ONE,
    ensures
        match resolve_spec(registry.entries@, exposure, isin@, base_weight) {
            Ok(m) => r matches Ok(wm) && wm@ == m && wm.wf(),
            Err(e) => r matches Err(e2) && e2 == e,
        },
{
    match registry.find_index(isin) {
        None => Err(ResolveError::UnknownSecurity),
        Some(idx) => {
            let len = registry.len();
            let mut visited: Vec<bool> = Vec::new();
            let mut f: usize = 0;
            while f < len
                invariant
                    0 <= f <= len,
                    visited@.len() == f,
                    forall|l: int| 0 <= l < f ==> visited@[l] == false,
                decreases len - f,
            {
                visited.push(false);
                f += 1;
            }
            proof {
                assert(visited@ =~= Seq::new(registry.entries@.len(), |i: int| false));
            }
            let mut acc = WeightMap::new();
            match resolve_into(registry, exposure, idx, base_weight, &mut visited, &mut acc) {
                Ok(()) => Ok(acc),
                Err(e) => Err(e),
            }
        },
    }
}

} // verus!
