//! Label-to-weight maps.
//!
//! A [`WeightMap`] is an ordered association list from a label (an ISIN,
//! a sector, a country, a region or a market name) to a scaled weight
//! fraction. Insertion order is kept, which later gives the exposure
//! breakdown a deterministic tie-break. Keys are unique and every weight
//! stays at or under [`WEIGHT_CAP`].

use vstd::prelude::*;
use crate::weights::{WEIGHT_CAP, WEIGHT_ONE, add_weight, add_weight_spec};

verus! {

/// View of a vector of label/weight pairs: each label as its character
/// sequence, in the same order.
pub open spec fn kv_view(s: Seq<(String, u64)>) -> Seq<(Seq<char>, u64)> {
    s.map_values(|p: (String, u64)| (p.0@, p.1))
}

/// Index of the first pair at or after position `i` whose label is `k`.
pub open spec fn find_key_from(m: Seq<(Seq<char>, u64)>, k: Seq<char>, i: int) -> Option<int>
    decreases m.len() - i,
{
    if i < 0 || i >= m.len() {
        None
    } else if m[i].0 == k {
        Some(i)
    } else {
        find_key_from(m, k, i + 1)
    }
}

/// Index of the first pair whose label is `k`.
pub open spec fn find_key(m: Seq<(Seq<char>, u64)>, k: Seq<char>) -> Option<int> {
    find_key_from(m, k, 0)
}

/// No two pairs carry the same label.
pub open spec fn unique_keys(m: Seq<(Seq<char>, u64)>) -> bool {
    forall|i: int, j: int| 0 <= i < j < m.len() ==> m[i].0 != m[j].0
}

/// Every weight is at most `cap`.
pub open spec fn weights_bounded(m: Seq<(Seq<char>, u64)>, cap: u64) -> bool {
    forall|i: int| 0 <= i < m.len() ==> #[trigger] m[i].1 <= cap
}

/// Adding `w` under label `k`: accumulate onto an existing pair, or
/// append a new one; refused when the pair's weight would pass `cap`.
pub open spec fn add_capped_spec(
    m: Seq<(Seq<char>, u64)>,
    k: Seq<char>,
    w: u64,
    cap: u64,
) -> Option<Seq<(Seq<char>, u64)>> {
    match find_key(m, k) {
        Some(i) => if m[i].1 + w > cap {
            None
        } else {
            Some(m.update(i, (k, (m[i].1 + w) as u64)))
        },
        None => if w > cap {
            None
        } else {
            Some(m.push((k, w)))
        },
    }
}

/// Setting label `k` to `w`: replace an existing pair's weight, or
/// append a new pair.
pub open spec fn set_entry_spec(
    m: Seq<(Seq<char>, u64)>,
    k: Seq<char>,
    w: u64,
) -> Seq<(Seq<char>, u64)> {
    match find_key(m, k) {
        Some(i) => m.update(i, (k, w)),
        None => m.push((k, w)),
    }
}

/// Adding every pair of `b` from position `i` on into `a`, in order;
/// refused as a whole when any single addition would pass [`WEIGHT_CAP`].
pub open spec fn merge_spec(
    a: Seq<(Seq<char>, u64)>,
    b: Seq<(Seq<char>, u64)>,
    i: int,
) -> Option<Seq<(Seq<char>, u64)>>
    decreases b.len() - i,
{
    if i < 0 || i >= b.len() {
        Some(a)
    } else {
        match add_capped_spec(a, b[i].0, b[i].1, WEIGHT_CAP) {
            None => None,
            Some(a2) => merge_spec(a2, b, i + 1),
        }
    }
}

/// Sum of all weights in the map.
pub open spec fn sum_weights(m: Seq<(Seq<char>, u64)>) -> int
    decreases m.len(),
{
    if m.len() == 0 {
        0
    } else {
        sum_weights(m.drop_last()) + m.last().1
    }
}

/// A found index lies in range, carries the key, and nothing before it does.
pub proof fn lemma_find_from_some(m: Seq<(Seq<char>, u64)>, k: Seq<char>, i: int, j: int)
    requires
        0 <= i,
        find_key_from(m, k, i) == Some(j),
    ensures
        i <= j < m.len(),
        m[j].0 == k,
        forall|l: int| i <= l < j ==> m[l].0 != k,
    decreases m.len() - i,
{
    if i < m.len() && m[i].0 != k {
        lemma_find_from_some(m, k, i + 1, j);
    }
}

/// A failed search means no pair at or after `i` carries the key.
pub proof fn lemma_find_from_none(m: Seq<(Seq<char>, u64)>, k: Seq<char>, i: int)
    requires
        0 <= i,
        find_key_from(m, k, i) is None,
    ensures
        forall|l: int| i <= l < m.len() ==> m[l].0 != k,
    decreases m.len() - i,
{
    if i < m.len() {
        lemma_find_from_none(m, k, i + 1);
    }
}

/// A key that no pair carries is never found.
pub proof fn lemma_find_none_intro(m: Seq<(Seq<char>, u64)>, k: Seq<char>, i: int)
    requires
        0 <= i,
        forall|l: int| i <= l < m.len() ==> m[l].0 != k,
    ensures
        find_key_from(m, k, i) is None,
    decreases m.len() - i,
{
    if i < m.len() {
        lemma_find_none_intro(m, k, i + 1);
    }
}

/// An ordered map from labels to scaled weight fractions.
pub struct WeightMap {
    pub entries: Vec<(String, u64)>,
}

impl View for WeightMap {
    type V = Seq<(Seq<char>, u64)>;

    open spec fn view(&self) -> Seq<(Seq<char>, u64)> {
        kv_view(self.entries@)
    }
}

impl WeightMap {
    /// Structural well-formedness: unique labels, weights under the cap.
    pub open spec fn wf(&self) -> bool {
        unique_keys(self@) && weights_bounded(self@, WEIGHT_CAP)
    }

    /// Every weight is at most one whole unit, as a composition map
    /// of a single security must have.
    pub open spec fn unit_bounded(&self) -> bool {
        weights_bounded(self@, WEIGHT_ONE)
    }

    /// The empty map.
    pub fn new() -> (r: WeightMap)
        ensures
            r@ == Seq::<(Seq<char>, u64)>::empty(),
            r.wf(),
            r.unit_bounded(),
    {
        let r = WeightMap { entries: Vec::new() };
        proof {
            assert(r@ =~= Seq::<(Seq<char>, u64)>::empty());
        }
        r
    }

    /// Number of labels in the map.
    pub fn len(&self) -> (r: usize)
        ensures
            r == self@.len(),
    {
        self.entries.len()
    }

    /// Whether the map holds no labels at all.
    pub fn is_empty(&self) -> (r: bool)
        ensures
            r == (self@.len() == 0),
    {
        self.entries.len() == 0
    }

    /// The pair at position `i`, in insertion order.
    pub fn pair_at(&self, i: usize) -> (r: (&String, u64))
        requires
            i < self@.len(),
        ensures
            r.0@ == self@[i as int].0,
            r.1 == self@[i as int].1,
    {
        let e = &self.entries[i];
        (&e.0, e.1)
    }

    /// Position of label `k`, if it is present.
    pub fn find_index(&self, k: &String) -> (r: Option<usize>)
        ensures
            match r {
                Some(i) => i < self@.len() && self@[i as int].0 == k@ && find_key(self@, k@)
                    == Some(i as int),
                None => find_key(self@, k@) is None,
            },
    {
        let n = self.entries.len();
        let mut i: usize = 0;
        while i < n
            invariant
                n == self@.len(),
                0 <= i <= n,
                find_key(self@, k@) == find_key_from(self@, k@, i as int),
            decreases n - i,
        {
            let e = &self.entries[i];
            if e.0 == *k {
                assert(self@[i as int].0 == k@);
                return Some(i);
            }
            assert(self@[i as int].0 != k@);
            i += 1;
        }
        None
    }

    /// The weight stored under label `k`, if any.
    pub fn get(&self, k: &String) -> (r: Option<u64>)
        ensures
            match find_key(self@, k@) {
                Some(i) => r == Some(self@[i].1),
                None => r is None,
            },
    {
        match self.find_index(k) {
            Some(i) => Some(self.entries[i].1),
            None => None,
        }
    }

    /// Accumulates `w` under label `k`, keeping every weight at or under
    /// `cap`. Returns false, leaving the map unchanged, when the pair's
    /// weight would pass the cap.
    pub fn add_capped(&mut self, k: &String, w: u64, cap: u64) -> (ok: bool)
        requires
            old(self).wf(),
            weights_bounded(old(self)@, cap),
            w <= cap,
            cap <= WEIGHT_CAP,
        ensures
            final(self).wf(),
            weights_bounded(final(self)@, cap),
            match add_capped_spec(old(self)@, k@, w, cap) {
                Some(m) => ok && final(self)@ == m,
                None => !ok && final(self)@ == old(self)@,
            },
    {
        match self.find_index(k) {
            Some(i) => {
                proof {
                    lemma_find_from_some(self@, k@, 0, i as int);
                }
                let cur = self.entries[i].1;
                if cur > cap - w {
                    false
                } else {
                    self.entries[i] = (k.clone(), cur + w);
                    proof {
                        let m0 = kv_view(old(self).entries@);
                        let m1 = kv_view(self.entries@);
                        assert(m1 =~= m0.update(i as int, (k@, (cur + w) as u64)));
                    }
                    true
                }
            },
            None => {
                proof {
                    lemma_find_from_none(self@, k@, 0);
                }
                self.entries.push((k.clone(), w));
                proof {
                    let m0 = kv_view(old(self).entries@);
                    let m1 = kv_view(self.entries@);
                    assert(m1 =~= m0.push((k@, w)));
                }
                true
            },
        }
    }

    /// Accumulates `w` under label `k` up to the global cap.
    pub fn add(&mut self, k: &String, w: u64) -> (ok: bool)
        requires
            old(self).wf(),
            w <= WEIGHT_CAP,
        ensures
            final(self).wf(),
            match add_capped_spec(old(self)@, k@, w, WEIGHT_CAP) {
                Some(m) => ok && final(self)@ == m,
                None => !ok && final(self)@ == old(self)@,
            },
    {
        self.add_capped(k, w, WEIGHT_CAP)
    }

    /// Sets label `k` to exactly `w`, replacing any previous weight.
    pub fn set(&mut self, k: &String, w: u64) -> (r: ())
        requires
            old(self).wf(),
            w <= WEIGHT_CAP,
        ensures
            final(self).wf(),
            final(self)@ == set_entry_spec(old(self)@, k@, w),
            old(self).unit_bounded() && w <= WEIGHT_ONE ==> final(self).unit_bounded(),
    {
        match self.find_index(k) {
            Some(i) => {
                proof {
                    lemma_find_from_some(self@, k@, 0, i as int);
                }
                self.entries[i] = (k.clone(), w);
                proof {
                    let m0 = kv_view(old(self).entries@);
                    let m1 = kv_view(self.entries@);
                    assert(m1 =~= m0.update(i as int, (k@, w)));
                }
            },
            None => {
                proof {
                    lemma_find_from_none(self@, k@, 0);
                }
                self.entries.push((k.clone(), w));
                proof {
                    let m0 = kv_view(old(self).entries@);
                    let m1 = kv_view(self.entries@);
                    assert(m1 =~= m0.push((k@, w)));
                }
            },
        }
    }

    /// An element-for-element copy of the map.
    pub fn duplicate(&self) -> (r: WeightMap)
        ensures
            r@ == self@,
            r.entries@.len() == self.entries@.len(),
    {
        let n = self.entries.len();
        let mut out: Vec<(String, u64)> = Vec::new();
        let mut i: usize = 0;
        while i < n
            invariant
                n == self.entries@.len(),
                0 <= i <= n,
                out@.len() == i,
                kv_view(out@) =~= kv_view(self.entries@).take(i as int),
            decreases n - i,
        {
            let e = &self.entries[i];
            out.push((e.0.clone(), e.1));
            proof {
                assert(kv_view(out@) =~= kv_view(self.entries@).take(i as int + 1));
            }
            i += 1;
        }
        let r = WeightMap { entries: out };
        proof {
            assert(r@ =~= self@);
        }
        r
    }

    /// Accumulates every pair of `other` into this map, in order.
    /// Returns false when some addition would pass the cap; the map is
    /// then left in a partially merged state (still well formed), which
    /// callers discard.
    pub fn merge_from(&mut self, other: &WeightMap) -> (ok: bool)
        requires
            old(self).wf(),
            other.wf(),
        ensures
            final(self).wf(),
            match merge_spec(old(self)@, other@, 0) {
                Some(m) => ok && final(self)@ == m,
                None => !ok,
            },
    {
        let n = other.entries.len();
        let mut i: usize = 0;
        while i < n
            invariant
                n == other@.len(),
                0 <= i <= n,
                self.wf(),
                other.wf(),
                merge_spec(old(self)@, other@, 0) == merge_spec(self@, other@, i as int),
            decreases n - i,
        {
            let e = &other.entries[i];
            assert(other@[i as int].1 <= WEIGHT_CAP);
            let ok = self.add(&e.0, e.1);
            if !ok {
                return false;
            }
            i += 1;
        }
        true
    }
}

} // verus!
