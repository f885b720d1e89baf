//! The security registry and the portfolio.
//!
//! A security is identified by its ISIN and carries a cost ratio and five
//! composition maps, one per exposure dimension. The registry is built by
//! merging partial records that share an ISIN: a later record's non-empty
//! name or non-zero cost ratio overwrites, and its non-zero weights are
//! accumulated as additional entries of the per-dimension maps.

use vstd::prelude::*;
use crate::weights::WEIGHT_ONE;
use crate::wmap::{WeightMap, set_entry_spec};

verus! {

/// An axis along which portfolio composition is reported.
#[derive(Clone, Copy, Debug, PartialEq, Eq, Structural)]
pub enum Exposure {
    Holding,
    Sector,
    Country,
    Region,
    Market,
}

impl Exposure {
    /// The five dimensions, in reporting order.
    pub fn all() -> (r: Vec<Exposure>)
        ensures
            r@ =~= seq![
                Exposure::Holding,
                Exposure::Sector,
                Exposure::Country,
                Exposure::Region,
                Exposure::Market,
            ],
    {
        let mut v: Vec<Exposure> = Vec::new();
        v.push(Exposure::Holding);
        v.push(Exposure::Sector);
        v.push(Exposure::Country);
        v.push(Exposure::Region);
        v.push(Exposure::Market);
        v
    }

    /// Display name of the dimension.
    pub fn label(&self) -> (r: String)
        ensures
            self is Holding ==> r@ == "Holding"@,
            self is Sector ==> r@ == "Sector"@,
            self is Country ==> r@ == "Country"@,
            self is Region ==> r@ == "Region"@,
            self is Market ==> r@ == "Market"@,
    {
        match self {
            Exposure::Holding => String::from_str("Holding"),
            Exposure::Sector => String::from_str("Sector"),
            Exposure::Country => String::from_str("Country"),
            Exposure::Region => String::from_str("Region"),
            Exposure::Market => String::from_str("Market"),
        }
    }
}

/// One registered security: a display name, a cost ratio (a scaled
/// fraction, 0 when unknown) and five composition maps.
pub struct Security {
    pub name: String,
    pub ter: u64,
    pub holding: WeightMap,
    pub sector: WeightMap,
    pub country: WeightMap,
    pub region: WeightMap,
    pub market: WeightMap,
}

/// The composition map of `sec` along dimension `dim`.
pub open spec fn exposure_of(sec: Security, dim: Exposure) -> Seq<(Seq<char>, u64)> {
    match dim {
        Exposure::Holding => sec.holding@,
        Exposure::Sector => sec.sector@,
        Exposure::Country => sec.country@,
        Exposure::Region => sec.region@,
        Exposure::Market => sec.market@,
    }
}

impl Security {
    /// All five maps have unique labels and weights of at most one unit,
    /// and the cost ratio is a fraction of at most one unit.
    pub open spec fn wf(&self) -> bool {
        &&& self.ter <= WEIGHT_ONE
        &&& self.holding.wf() && self.holding.unit_bounded()
        &&& self.sector.wf() && self.sector.unit_bounded()
        &&& self.country.wf() && self.country.unit_bounded()
        &&& self.region.wf() && self.region.unit_bounded()
        &&& self.market.wf() && self.market.unit_bounded()
    }

    /// A security with the given name and cost ratio and all maps empty.
    pub fn bare(name: String, ter: u64) -> (r: Security)
        requires
            ter <= WEIGHT_ONE,
        ensures
            r.wf(),
            r.name == name,
            r.ter == ter,
            r.holding@ == Seq::<(Seq<char>, u64)>::empty(),
            r.sector@ == Seq::<(Seq<char>, u64)>::empty(),
            r.country@ == Seq::<(Seq<char>, u64)>::empty(),
            r.region@ == Seq::<(Seq<char>, u64)>::empty(),
            r.market@ == Seq::<(Seq<char>, u64)>::empty(),
    {
        Security {
            name,
            ter,
            holding: WeightMap::new(),
            sector: WeightMap::new(),
            country: WeightMap::new(),
            region: WeightMap::new(),
            market: WeightMap::new(),
        }
    }

    /// The composition map along the requested dimension.
    pub fn get_exposure(&self, dim: Exposure) -> (r: &WeightMap)
        ensures
            r@ == exposure_of(*self, dim),
            *r == self.map_for(dim),
    {
        match dim {
            Exposure::Holding => &self.holding,
            Exposure::Sector => &self.sector,
            Exposure::Country => &self.country,
            Exposure::Region => &self.region,
            Exposure::Market => &self.market,
        }
    }

    /// The map field selected by `dim`.
    pub open spec fn map_for(&self, dim: Exposure) -> WeightMap {
        match dim {
            Exposure::Holding => self.holding,
            Exposure::Sector => self.sector,
            Exposure::Country => self.country,
            Exposure::Region => self.region,
            Exposure::Market => self.market,
        }
    }
}

/// One source row for the registry, after the loader has forward-filled
/// the ISIN and normalized the sector label: at most one entry for each
/// composition map, with a zero weight standing for an absent entry.
pub struct SecurityRecord {
    pub isin: String,
    pub name: String,
    pub ter: u64,
    pub holding: String,
    pub holding_weight: u64,
    pub sector: String,
    pub sector_weight: u64,
    pub country: String,
    pub country_weight: u64,
    pub region: String,
    pub region_weight: u64,
}

impl SecurityRecord {
    /// Every weight and the cost ratio are fractions of at most one unit.
    pub open spec fn wf(&self) -> bool {
        &&& self.ter <= WEIGHT_ONE
        &&& self.holding_weight <= WEIGHT_ONE
        &&& self.sector_weight <= WEIGHT_ONE
        &&& self.country_weight <= WEIGHT_ONE
        &&& self.region_weight <= WEIGHT_ONE
    }
}

/// What one composition map looks like after a record's entry for it has
/// been applied: untouched for a zero weight, otherwise the label is set
/// to the record's weight (a repeated label takes the latest weight).
pub open spec fn map_merged(
    before: Seq<(Seq<char>, u64)>,
    label: Seq<char>,
    weight: u64,
    after: Seq<(Seq<char>, u64)>,
) -> bool {
    if weight > 0 {
        after == set_entry_spec(before, label, weight)
    } else {
        after == before
    }
}

/// How a record updates an already registered security: a non-empty name
/// and a non-zero cost ratio overwrite, and each non-zero weight is set
/// in the matching map.
pub open spec fn sec_merged(before: Security, rec: SecurityRecord, after: Security) -> bool {
    &&& after.name@ == if rec.name@.len() > 0 {
        rec.name@
    } else {
        before.name@
    }
    &&& after.ter == if rec.ter > 0 {
        rec.ter
    } else {
        before.ter
    }
    &&& map_merged(before.holding@, rec.holding@, rec.holding_weight, after.holding@)
    &&& map_merged(before.sector@, rec.sector@, rec.sector_weight, after.sector@)
    &&& map_merged(before.country@, rec.country@, rec.country_weight, after.country@)
    &&& map_merged(before.region@, rec.region@, rec.region_weight, after.region@)
    &&& after.market@ == before.market@
}

/// Index of the first registry entry at or after `i` registered under `isin`.
pub open spec fn reg_find_from(
    entries: Seq<(String, Security)>,
    isin: Seq<char>,
    i: int,
) -> Option<int>
    decreases entries.len() - i,
{
    if i < 0 || i >= entries.len() {
        None
    } else if entries[i].0@ == isin {
        Some(i)
    } else {
        reg_find_from(entries, isin, i + 1)
    }
}

/// Index of the registry entry registered under `isin`.
pub open spec fn reg_find(entries: Seq<(String, Security)>, isin: Seq<char>) -> Option<int> {
    reg_find_from(entries, isin, 0)
}

/// A found registry index lies in range, carries the ISIN, and nothing
/// before it does.
pub proof fn lemma_reg_find_from_some(
    entries: Seq<(String, Security)>,
    isin: Seq<char>,
    i: int,
    j: int,
)
    requires
        0 <= i,
        reg_find_from(entries, isin, i) == Some(j),
    ensures
        i <= j < entries.len(),
        entries[j].0@ == isin,
        forall|l: int| i <= l < j ==> entries[l].0@ != isin,
    decreases entries.len() - i,
{
    if i < entries.len() && entries[i].0@ != isin {
        lemma_reg_find_from_some(entries, isin, i + 1, j);
    }
}

/// A failed registry search means no entry at or after `i` carries the ISIN.
pub proof fn lemma_reg_find_from_none(entries: Seq<(String, Security)>, isin: Seq<char>, i: int)
    requires
        0 <= i,
        reg_find_from(entries, isin, i) is None,
    ensures
        forall|l: int| i <= l < entries.len() ==> entries[l].0@ != isin,
    decreases entries.len() - i,
{
    if i < entries.len() {
        lemma_reg_find_from_none(entries, isin, i + 1);
    }
}

/// All known securities, keyed by ISIN, in registration order.
pub struct Registry {
    pub entries: Vec<(String, Security)>,
}

impl Registry {
    /// ISINs are unique and every security is well formed.
    pub open spec fn wf(&self) -> bool {
        &&& forall|i: int, j: int|
            0 <= i < j < self.entries@.len() ==> self.entries@[i].0@ != self.entries@[j].0@
        &&& forall|i: int| 0 <= i < self.entries@.len() ==> (#[trigger] self.entries@[i].1).wf()
    }

    /// An empty registry.
    pub fn new() -> (r: Registry)
        ensures
            r.wf(),
            r.entries@.len() == 0,
    {
        Registry { entries: Vec::new() }
    }

    /// Number of registered securities.
    pub fn len(&self) -> (r: usize)
        ensures
            r == self.entries@.len(),
    {
        self.entries.len()
    }

    /// Position of the security registered under `isin`, if any.
    pub fn find_index(&self, isin: &String) -> (r: Option<usize>)
        ensures
            match r {
                Some(i) => i < self.entries@.len() && self.entries@[i as int].0@ == isin@
                    && reg_find(self.entries@, isin@) == Some(i as int),
                None => reg_find(self.entries@, isin@) is None,
            },
    {
        let n = self.entries.len();
        let mut i: usize = 0;
        while i < n
            invariant
                n == self.entries@.len(),
                0 <= i <= n,
                reg_find(self.entries@, isin@) == reg_find_from(self.entries@, isin@, i as int),
            decreases n - i,
        {
            let e = &self.entries[i];
            if e.0 == *isin {
                return Some(i);
            }
            i += 1;
        }
        None
    }

    /// The security registered under `isin`, if any.
    pub fn lookup(&self, isin: &String) -> (r: Option<&Security>)
        ensures
            match r {
                Some(sec) => {
                    &&& reg_find(self.entries@, isin@) is Some
                    &&& *sec == self.entries@[reg_find(self.entries@, isin@)->Some_0].1
                },
                None => reg_find(self.entries@, isin@) is None,
            },
    {
        match self.find_index(isin) {
            Some(i) => Some(&self.entries[i].1),
            None => None,
        }
    }

    /// Whether some security is registered under `isin`.
    pub fn contains(&self, isin: &String) -> (r: bool)
        ensures
            r == (reg_find(self.entries@, isin@) is Some),
    {
        match self.find_index(isin) {
            Some(_) => true,
            None => false,
        }
    }

    /// Merges one source record into the registry: a record for a new
    /// ISIN registers a fresh security, a record for a known ISIN
    /// overwrites its non-empty fields and accumulates its non-zero
    /// weights into the per-dimension maps.
    pub fn insert_record(&mut self, rec: &SecurityRecord)
        requires
            old(self).wf(),
            rec.wf(),
        ensures
            final(self).wf(),
            match reg_find(old(self).entries@, rec.isin@) {
                Some(i) => {
                    &&& final(self).entries@.len() == old(self).entries@.len()
                    &&& forall|k: int|
                        0 <= k < old(self).entries@.len() && k != i ==> final(self).entries@[k]
                            == old(self).entries@[k]
                    &&& final(self).entries@[i].0 == old(self).entries@[i].0
                    &&& sec_merged(old(self).entries@[i].1, *rec, final(self).entries@[i].1)
                },
                None => {
                    &&& final(self).entries@.len() == old(self).entries@.len() + 1
                    &&& forall|k: int|
                        0 <= k < old(self).entries@.len() ==> final(self).entries@[k]
                            == old(self).entries@[k]
                    &&& final(self).entries@.last().0@ == rec.isin@
                    &&& final(self).entries@.last().1.name@ == rec.name@
                    &&& final(self).entries@.last().1.ter == rec.ter
                    &&& map_merged(
                        Seq::<(Seq<char>, u64)>::empty(),
                        rec.holding@,
                        rec.holding_weight,
                        final(self).entries@.last().1.holding@,
                    )
                    &&& map_merged(
                        Seq::<(Seq<char>, u64)>::empty(),
                        rec.sector@,
                        rec.sector_weight,
                        final(self).entries@.last().1.sector@,
                    )
                    &&& map_merged(
                        Seq::<(Seq<char>, u64)>::empty(),
                        rec.country@,
                        rec.country_weight,
                        final(self).entries@.last().1.country@,
                    )
                    &&& map_merged(
                        Seq::<(Seq<char>, u64)>::empty(),
                        rec.region@,
                        rec.region_weight,
                        final(self).entries@.last().1.region@,
                    )
                    &&& final(self).entries@.last().1.market@.len() == 0
                },
            },
    {
        match self.find_index(&rec.isin) {
            Some(i) => {
                if !rec.name.as_str().is_empty() {
                    self.entries[i].1.name = rec.name.clone();
                }
                if rec.ter > 0 {
                    self.entries[i].1.ter = rec.ter;
                }
                if rec.holding_weight > 0 {
                    self.entries[i].1.holding.set(&rec.holding, rec.holding_weight);
                }
                if rec.sector_weight > 0 {
                    self.entries[i].1.sector.set(&rec.sector, rec.sector_weight);
                }
                if rec.country_weight > 0 {
                    self.entries[i].1.country.set(&rec.country, rec.country_weight);
                }
                if rec.region_weight > 0 {
                    self.entries[i].1.region.set(&rec.region, rec.region_weight);
                }
                proof {
                    assert(old(self).entries@[i as int].1.wf());
                    assert(sec_merged(old(self).entries@[i as int].1, *rec, self.entries@[i as int].1));
                    assert(self.entries@[i as int].1.wf());
                    assert forall|a: int, b: int|
                        0 <= a < b < self.entries@.len() implies self.entries@[a].0@
                        != self.entries@[b].0@ by {
                        assert(self.entries@[a].0 == old(self).entries@[a].0);
                        assert(self.entries@[b].0 == old(self).entries@[b].0);
                        assert(old(self).entries@[a].0@ != old(self).entries@[b].0@);
                    }
                    assert forall|k: int|
                        0 <= k < self.entries@.len() implies (#[trigger] self.entries@[k].1).wf() by {
                        if k != i as int {
                            assert(self.entries@[k] == old(self).entries@[k]);
                            assert(old(self).entries@[k].1.wf());
                        }
                    }
                }
            },
            None => {
                let mut sec = Security::bare(rec.name.clone(), rec.ter);
                if rec.holding_weight > 0 {
                    sec.holding.set(&rec.holding, rec.holding_weight);
                }
                if rec.sector_weight > 0 {
                    sec.sector.set(&rec.sector, rec.sector_weight);
                }
                if rec.country_weight > 0 {
                    sec.country.set(&rec.country, rec.country_weight);
                }
                if rec.region_weight > 0 {
                    sec.region.set(&rec.region, rec.region_weight);
                }
                self.entries.push((rec.isin.clone(), sec));
                proof {
                    lemma_reg_find_from_none(old(self).entries@, rec.isin@, 0);
                    let n = old(self).entries@.len() as int;
                    assert forall|a: int, b: int|
                        0 <= a < b < self.entries@.len() implies self.entries@[a].0@
                        != self.entries@[b].0@ by {
                        if b < n {
                            assert(self.entries@[a] == old(self).entries@[a]);
                            assert(self.entries@[b] == old(self).entries@[b]);
                            assert(old(self).entries@[a].0@ != old(self).entries@[b].0@);
                        } else {
                            assert(self.entries@[a] == old(self).entries@[a]);
                            assert(old(self).entries@[a].0@ != rec.isin@);
                        }
                    }
                    assert forall|k: int|
                        0 <= k < self.entries@.len() implies (#[trigger] self.entries@[k].1).wf() by {
                        if k < n {
                            assert(self.entries@[k] == old(self).entries@[k]);
                            assert(old(self).entries@[k].1.wf());
                        }
                    }
                }
            },
        }
    }
}

/// The investor's allocation: ISIN to normalized weight fraction, in
/// input order. A repeated ISIN keeps its first weight.
pub struct Portfolio {
    pub positions: Vec<(String, u64)>,
}

impl Portfolio {
    /// ISINs are unique and every weight is at most one whole unit.
    pub open spec fn wf(&self) -> bool {
        &&& forall|i: int, j: int|
            0 <= i < j < self.positions@.len() ==> self.positions@[i].0@ != self.positions@[j].0@
        &&& forall|i: int|
            0 <= i < self.positions@.len() ==> (#[trigger] self.positions@[i]).1 <= WEIGHT_ONE
    }

    /// An empty portfolio.
    pub fn new() -> (r: Portfolio)
        ensures
            r.wf(),
            r.positions@.len() == 0,
    {
        Portfolio { positions: Vec::new() }
    }

    /// Number of positions.
    pub fn len(&self) -> (r: usize)
        ensures
            r == self.positions@.len(),
    {
        self.positions.len()
    }

    /// Records a position; an ISIN already present keeps its first weight.
    pub fn insert(&mut self, isin: &String, weight: u64) -> (added: bool)
        requires
            old(self).wf(),
            weight <= WEIGHT_ONE,
        ensures
            final(self).wf(),
            added ==> final(self).positions@.len() == old(self).positions@.len() + 1
                && final(self).positions@.drop_last() == old(self).positions@
                && final(self).positions@.last().0@ == isin@
                && final(self).positions@.last().1 == weight,
            !added ==> final(self).positions@ == old(self).positions@ && (exists|i: int|
                0 <= i < old(self).positions@.len() && old(self).positions@[i].0@ == isin@),
    {
        let n = self.positions.len();
        let mut i: usize = 0;
        while i < n
            invariant
                *self == *old(self),
                old(self).wf(),
                n == self.positions@.len(),
                0 <= i <= n,
                forall|l: int| 0 <= l < i ==> self.positions@[l].0@ != isin@,
            decreases n - i,
        {
            let e = &self.positions[i];
            if e.0 == *isin {
                proof {
                    assert(old(self).positions@[i as int].0@ == isin@);
                }
                return false;
            }
            i += 1;
        }
        self.positions.push((isin.clone(), weight));
        proof {
            assert(self.positions@.drop_last() =~= old(self).positions@);
            let n = old(self).positions@.len() as int;
            assert forall|a: int, b: int|
                0 <= a < b < self.positions@.len() implies self.positions@[a].0@
                != self.positions@[b].0@ by {
                if b < n {
                    assert(self.positions@[a] == old(self).positions@[a]);
                    assert(self.positions@[b] == old(self).positions@[b]);
                    assert(old(self).positions@[a].0@ != old(self).positions@[b].0@);
                } else {
                    assert(self.positions@[a] == old(self).positions@[a]);
                }
            }
            assert forall|k: int|
                0 <= k < self.positions@.len() implies (#[trigger] self.positions@[k]).1
                <= WEIGHT_ONE by {
                if k < n {
                    assert(self.positions@[k] == old(self).positions@[k]);
                }
            }
        }
        true
    }
}

} // verus!
