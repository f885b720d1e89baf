//! Derived exposure and label normalization.
//!
//! A security that gives only its country composition gets its region
//! and market composition derived from it: each country's weight is
//! mapped through a static country-to-region (or country-to-market)
//! table and accumulated onto the resolved label. A country absent from
//! the table is a fatal configuration error. Sector labels are
//! normalized against a set of valid sectors and a synonym table before
//! they reach the registry.

use vstd::prelude::*;
use crate::weights::WEIGHT_ONE;
use crate::wmap::{WeightMap, add_capped_spec};
use crate::security::{Registry, Security};

verus! {

/// View of a vector of label pairs: both labels as character sequences.
pub open spec fn table_view(s: Seq<(String, String)>) -> Seq<(Seq<char>, Seq<char>)> {
    s.map_values(|p: (String, String)| (p.0@, p.1@))
}

/// Index of the first table pair at or after `i` whose left label is `k`.
pub open spec fn find_label_from(
    t: Seq<(Seq<char>, Seq<char>)>,
    k: Seq<char>,
    i: int,
) -> Option<int>
    decreases t.len() - i,
{
    if i < 0 || i >= t.len() {
        None
    } else if t[i].0 == k {
        Some(i)
    } else {
        find_label_from(t, k, i + 1)
    }
}

/// Index of the first table pair whose left label is `k`.
pub open spec fn find_label(t: Seq<(Seq<char>, Seq<char>)>, k: Seq<char>) -> Option<int> {
    find_label_from(t, k, 0)
}

/// A static lookup table from one label to another, searched in order.
pub struct LookupTable {
    pub pairs: Vec<(String, String)>,
}

impl View for LookupTable {
    type V = Seq<(Seq<char>, Seq<char>)>;

    open spec fn view(&self) -> Seq<(Seq<char>, Seq<char>)> {
        table_view(self.pairs@)
    }
}

impl LookupTable {
    /// An empty table.
    pub fn new() -> (r: LookupTable)
        ensures
            r@ == Seq::<(Seq<char>, Seq<char>)>::empty(),
    {
        let r = LookupTable { pairs: Vec::new() };
        proof {
            assert(r@ =~= Seq::<(Seq<char>, Seq<char>)>::empty());
        }
        r
    }

    /// Appends one mapping; an earlier pair with the same left label
    /// keeps precedence.
    pub fn push_pair(&mut self, from: &String, to: &String)
        ensures
            final(self)@ == old(self)@.push((from@, to@)),
    {
        self.pairs.push((from.clone(), to.clone()));
        proof {
            assert(self@ =~= old(self)@.push((from@, to@)));
        }
    }

    /// The label that `k` maps to, if the table holds it.
    pub fn get(&self, k: &String) -> (r: Option<&String>)
        ensures
            match find_label(self@, k@) {
                Some(j) => r matches Some(s) && s@ == self@[j].1,
                None => r is None,
            },
    {
        let n = self.pairs.len();
        let mut i: usize = 0;
        while i < n
            invariant
                n == self.pairs@.len(),
                0 <= i <= n,
                find_label(self@, k@) == find_label_from(self@, k@, i as int),
            decreases n - i,
        {
            let e = &self.pairs[i];
            if e.0 == *k {
                assert(self@[i as int].0 == k@);
                return Some(&e.1);
            }
            assert(self@[i as int].0 != k@);
            i += 1;
        }
        None
    }
}

/// Why the derivation pass failed.
#[derive(Debug)]
pub enum DeriveError {
    /// A country label has no entry in the static table: the table is
    /// incomplete, which is fatal for the whole run.
    UnmappedCountry { country: String, isin: String },
    /// The derived weights of one security accumulate past one whole
    /// unit, so its country composition is malformed.
    ExcessWeight { isin: String },
}

/// One step of deriving a map: what failed, if anything.
pub enum DeriveStep {
    Unmapped(Seq<char>),
    Excess,
}

/// Ghost-level outcome of the whole derivation pass.
pub enum DeriveOutcome {
    Done,
    Unmapped { isin: Seq<char>, country: Seq<char> },
    Excess { isin: Seq<char> },
}

/// Folding the country composition `cmap` from entry `i` on through the
/// table: each country's weight is accumulated onto its mapped label,
/// capped at one whole unit.
pub open spec fn derive_map(
    table: Seq<(Seq<char>, Seq<char>)>,
    cmap: Seq<(Seq<char>, u64)>,
    i: int,
    acc: Seq<(Seq<char>, u64)>,
) -> Result<Seq<(Seq<char>, u64)>, DeriveStep>
    decreases cmap.len() - i,
{
    if i < 0 || i >= cmap.len() {
        Ok(acc)
    } else {
        match find_label(table, cmap[i].0) {
            None => Err(DeriveStep::Unmapped(cmap[i].0)),
            Some(j) => match add_capped_spec(acc, table[j].1, cmap[i].1, WEIGHT_ONE) {
                None => Err(DeriveStep::Excess),
                Some(a2) => derive_map(table, cmap, i + 1, a2),
            },
        }
    }
}

/// Whether a security needs its map for one dimension derived: the map
/// is empty while the country composition is not.
pub open spec fn needs_derivation(target: Seq<(Seq<char>, u64)>, country: Seq<(Seq<char>, u64)>) -> bool {
    target.len() == 0 && country.len() > 0
}

/// The fully derived region map of a security, given the table.
pub open spec fn derived_region(
    tr: Seq<(Seq<char>, Seq<char>)>,
    sec: Security,
) -> Result<Seq<(Seq<char>, u64)>, DeriveStep> {
    if needs_derivation(sec.region@, sec.country@) {
        derive_map(tr, sec.country@, 0, Seq::<(Seq<char>, u64)>::empty())
    } else {
        Ok(sec.region@)
    }
}

/// The fully derived market map of a security, given the table.
pub open spec fn derived_market(
    tm: Seq<(Seq<char>, Seq<char>)>,
    sec: Security,
) -> Result<Seq<(Seq<char>, u64)>, DeriveStep> {
    if needs_derivation(sec.market@, sec.country@) {
        derive_map(tm, sec.country@, 0, Seq::<(Seq<char>, u64)>::empty())
    } else {
        Ok(sec.market@)
    }
}

/// How a security looks after the derivation pass: everything kept,
/// except that an empty region or market map is filled from the country
/// composition.
pub open spec fn sec_derived(
    tr: Seq<(Seq<char>, Seq<char>)>,
    tm: Seq<(Seq<char>, Seq<char>)>,
    before: Security,
    after: Security,
) -> bool {
    &&& after.name@ == before.name@
    &&& after.ter == before.ter
    &&& after.holding@ == before.holding@
    &&& after.sector@ == before.sector@
    &&& after.country@ == before.country@
    &&& derived_region(tr, before) == Ok::<Seq<(Seq<char>, u64)>, DeriveStep>(after.region@)
    &&& derived_market(tm, before) == Ok::<Seq<(Seq<char>, u64)>, DeriveStep>(after.market@)
}

/// The first failure of the derivation pass over the registry entries
/// from `i` on, region before market within one security.
pub open spec fn derive_all(
    tr: Seq<(Seq<char>, Seq<char>)>,
    tm: Seq<(Seq<char>, Seq<char>)>,
    entries: Seq<(String, Security)>,
    i: int,
) -> DeriveOutcome
    decreases entries.len() - i,
{
    if i < 0 || i >= entries.len() {
        DeriveOutcome::Done
    } else {
        match derived_region(tr, entries[i].1) {
            Err(DeriveStep::Unmapped(c)) => DeriveOutcome::Unmapped {
                isin: entries[i].0@,
                country: c,
            },
            Err(DeriveStep::Excess) => DeriveOutcome::Excess { isin: entries[i].0@ },
            Ok(_) => match derived_market(tm, entries[i].1) {
                Err(DeriveStep::Unmapped(c)) => DeriveOutcome::Unmapped {
                    isin: entries[i].0@,
                    country: c,
                },
                Err(DeriveStep::Excess) => DeriveOutcome::Excess { isin: entries[i].0@ },
                Ok(_) => derive_all(tr, tm, entries, i + 1),
            },
        }
    }
}

/// Derives one map from the country composition through a table.
fn derive_one(
    table: &LookupTable,
    country: &WeightMap,
    isin: &String,
) -> (r: Result<WeightMap, DeriveError>)
    requires
        country.wf(),
        country.unit_bounded(),
    ensures
        match derive_map(table@, country@, 0, Seq::<(Seq<char>, u64)>::empty()) {
            Ok(m) => r matches Ok(wm) && wm@ == m && wm.wf() && wm.unit_bounded(),
            Err(DeriveStep::Unmapped(c)) => r matches Err(e) && (e matches
                DeriveError::UnmappedCountry { country: ec, isin: ei } && ec@ == c && ei@
                == isin@),
            Err(DeriveStep::Excess) => r matches Err(e) && (e matches DeriveError::ExcessWeight {
                isin: ei,
            } && ei@ == isin@),
        },
{
    let mut out = WeightMap::new();
    let n = country.len();
    let mut i: usize = 0;
    while i < n
        invariant
            country.wf(),
            country.unit_bounded(),
            n == country@.len(),
            0 <= i <= n,
            out.wf(),
            out.unit_bounded(),
            derive_map(table@, country@, 0, Seq::<(Seq<char>, u64)>::empty()) == derive_map(
                table@,
                country@,
                i as int,
                out@,
            ),
        decreases n - i,
    {
        let (label, w) = country.pair_at(i);
        assert(w <= WEIGHT_ONE);
        match table.get(label) {
            None => {
                return Err(DeriveError::UnmappedCountry {
                    country: label.clone(),
                    isin: isin.clone(),
                });
            },
            Some(target) => {
                let ok = out.add_capped(target, w, WEIGHT_ONE);
                if !ok {
                    return Err(DeriveError::ExcessWeight { isin: isin.clone() });
                }
            },
        }
        i += 1;
    }
    Ok(out)
}

/// Runs the derivation pass: returns a registry in the same order in
/// which every security whose region or market map was empty while its
/// country composition was not has that map derived through the
/// matching table. Fails on the first country without a table entry, or
/// on derived weights accumulating past one whole unit.
pub fn derive_exposures(
    registry: Registry,
    region_table: &LookupTable,
    market_table: &LookupTable,
) -> (r: Result<Registry, DeriveError>)
    requires
        registry.wf(),
    ensures
        match derive_all(region_table@, market_table@, registry.entries@, 0) {
            DeriveOutcome::Done => r matches Ok(out) && out.wf() && out.entries@.len()
                == registry.entries@.len() && (forall|i: int|
                0 <= i < registry.entries@.len() ==> (#[trigger] out.entries@[i]).0@
                    == registry.entries@[i].0@ && sec_derived(
                    region_table@,
                    market_table@,
                    registry.entries@[i].1,
                    out.entries@[i].1,
                )),
            DeriveOutcome::Unmapped { isin, country } => r matches Err(e) && (e matches
                DeriveError::UnmappedCountry { country: ec, isin: ei } && ec@ == country && ei@
                == isin),
            DeriveOutcome::Excess { isin } => r matches Err(e) && (e matches
                DeriveError::ExcessWeight { isin: ei } && ei@ == isin),
        },
{
    let ghost regv = registry.entries@;
    let ghost trv = region_table@;
    let ghost tmv = market_table@;
    let n = registry.entries.len();
    let mut out: Vec<(String, Security)> = Vec::new();
    let mut i: usize = 0;
    while i < n
        invariant
            registry.wf(),
            regv == registry.entries@,
            trv == region_table@,
            tmv == market_table@,
            n == regv.len(),
            0 <= i <= n,
            out@.len() == i,
            forall|k: int|
                0 <= k < i ==> (#[trigger] out@[k]).0@ == regv[k].0@ && sec_derived(
                    trv,
                    tmv,
                    regv[k].1,
                    out@[k].1,
                ),
            forall|k: int| 0 <= k < i ==> (#[trigger] out@[k]).1.wf(),
            derive_all(trv, tmv, regv, 0) == derive_all(trv, tmv, regv, i as int),
        decreases n - i,
    {
        let e = &registry.entries[i];
        proof {
            assert(regv[i as int].1.wf());
        }
        let region = if e.1.region.is_empty() && !e.1.country.is_empty() {
            match derive_one(region_table, &e.1.country, &e.0) {
                Ok(m) => m,
                Err(err) => {
                    return Err(err);
                },
            }
        } else {
            e.1.region.duplicate()
        };
        let market = if e.1.market.is_empty() && !e.1.country.is_empty() {
            match derive_one(market_table, &e.1.country, &e.0) {
                Ok(m) => m,
                Err(err) => {
                    return Err(err);
                },
            }
        } else {
            e.1.market.duplicate()
        };
        let sec = Security {
            name: e.1.name.clone(),
            ter: e.1.ter,
            holding: e.1.holding.duplicate(),
            sector: e.1.sector.duplicate(),
            country: e.1.country.duplicate(),
            region,
            market,
        };
        proof {
            assert(sec_derived(trv, tmv, regv[i as int].1, sec));
            assert(sec.wf());
        }
        out.push((e.0.clone(), sec));
        i += 1;
    }
    let result = Registry { entries: out };
    proof {
        assert forall|a: int, b: int|
            0 <= a < b < result.entries@.len() implies result.entries@[a].0@
            != result.entries@[b].0@ by {
            assert(result.entries@[a].0@ == regv[a].0@);
            assert(result.entries@[b].0@ == regv[b].0@);
            assert(regv[a].0@ != regv[b].0@);
        }
    }
    Ok(result)
}

/// Why a sector label could not be accepted.
#[derive(Debug, PartialEq, Eq)]
pub enum SectorError {
    /// The label is neither a valid sector nor a known synonym.
    UnmappedSector { sector: String },
}

/// Whether `label` occurs among the valid sector names.
pub open spec fn sector_listed(sectors: Seq<String>, label: Seq<char>) -> bool {
    exists|i: int| 0 <= i < sectors.len() && sectors[i]@ == label
}

/// The normalized form of a sector label: an empty or valid label stays
/// as it is, a known synonym is replaced by its valid form, anything
/// else is unmapped.
pub open spec fn normalize_sector_spec(
    label: Seq<char>,
    sectors: Seq<String>,
    synonyms: Seq<(Seq<char>, Seq<char>)>,
) -> Option<Seq<char>> {
    if label.len() == 0 || sector_listed(sectors, label) {
        Some(label)
    } else {
        match find_label(synonyms, label) {
            Some(j) => Some(synonyms[j].1),
            None => None,
        }
    }
}

/// Normalizes a sector label against the valid sector set and the
/// synonym table, failing when the label is unknown to both.
pub fn normalize_sector(
    label: &String,
    sectors: &Vec<String>,
    synonyms: &LookupTable,
) -> (r: Result<String, SectorError>)
    ensures
        match normalize_sector_spec(label@, sectors@, synonyms@) {
            Some(s) => r matches Ok(rs) && rs@ == s,
            None => r matches Err(e) && (e matches SectorError::UnmappedSector { sector } && sector@
                == label@),
        },
{
    if label.as_str().is_empty() {
        return Ok(label.clone());
    }
    let n = sectors.len();
    let mut i: usize = 0;
    while i < n
        invariant
            n == sectors@.len(),
            0 <= i <= n,
            forall|l: int| 0 <= l < i ==> sectors@[l]@ != label@,
        decreases n - i,
    {
        if sectors[i] == *label {
            assert(sector_listed(sectors@, label@));
            return Ok(label.clone());
        }
        i += 1;
    }
    proof {
        assert(!sector_listed(sectors@, label@));
    }
    match synonyms.get(label) {
        Some(target) => Ok(target.clone()),
        None => Err(SectorError::UnmappedSector { sector: label.clone() }),
    }
}

} // verus!
