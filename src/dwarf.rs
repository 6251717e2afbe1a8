//! The debug-information index: compilation units with their address ranges
//! and entry trees, and a cache that discovers which unit covers an address
//! by reading the units' range lists lazily, one unit at a time.

use vstd::prelude::*;

verus! {

/// A half-open range `[begin, end)` of static addresses.
#[derive(Clone, Copy, Debug, PartialEq, Eq)]
pub struct Range {
    pub begin: u64,
    pub end: u64,
}

pub open spec fn range_covers(r: Range, svma: u64) -> bool {
    r.begin <= svma && svma < r.end
}

pub open spec fn ranges_cover(rs: Seq<Range>, svma: u64) -> bool {
    exists|k: int| 0 <= k < rs.len() && #[trigger] range_covers(rs[k], svma)
}

/// The kind of a debug-information entry, as far as the index tells them apart.
#[derive(Clone, Copy, Debug, PartialEq, Eq, Structural)]
pub enum EntryTag {
    CompileUnit,
    Subprogram,
    InlinedSubroutine,
    LexicalBlock,
    Variable,
    FormalParameter,
    BaseType,
    PointerType,
    Other,
}

/// How a base type's bytes encode a number.
#[derive(Clone, Copy, Debug, PartialEq, Eq, Structural)]
pub enum Encoding {
    Signed,
    Unsigned,
    Other,
}

/// One node of a unit's entry tree. Entries refer to each other by their index
/// in the unit; a parent always comes before its children.
#[derive(Debug)]
pub struct Entry {
    pub tag: EntryTag,
    pub parent: Option<usize>,
    pub name: Option<String>,
    /// The entry's own address ranges; `None` where it has no range information.
    pub ranges: Option<Vec<Range>>,
    pub abstract_origin: Option<usize>,
    pub type_ref: Option<usize>,
    pub byte_size: Option<u64>,
    pub encoding: Encoding,
    /// The location expression of a variable or parameter.
    pub location: Option<Vec<u8>>,
    /// The frame-base expression of a subprogram.
    pub frame_base: Option<Vec<u8>>,
}

/// `b` lies on the parent chain of `v`.
pub open spec fn is_ancestor(entries: Seq<Entry>, b: int, v: int) -> bool
    decreases v,
{
    if 0 <= v < entries.len() {
        match entries[v].parent {
            Some(p) => p < v && (p == b || is_ancestor(entries, b, p as int)),
            None => false,
        }
    } else {
        false
    }
}

/// An ancestor comes before its descendants.
pub proof fn lemma_ancestor_below(entries: Seq<Entry>, b: int, v: int)
    requires
        is_ancestor(entries, b, v),
    ensures
        b < v,
    decreases v,
{
    let p = entries[v].parent->Some_0 as int;
    if p != b {
        lemma_ancestor_below(entries, b, p);
    }
}

/// Entry `i` is well placed: the first entry is the root; every later one
/// hangs below the entry just before it or below one of that entry's
/// ancestors, which puts the entries in depth-first pre-order. References to
/// other entries stay within the unit.
pub open spec fn entry_ok(entries: Seq<Entry>, i: int) -> bool {
    &&& i == 0 ==> entries[i].parent is None
    &&& i > 0 ==> (entries[i].parent matches Some(p)
        && (p == i - 1 || is_ancestor(entries, p as int, i - 1)))
    &&& entries[i].abstract_origin matches Some(o) ==> o < entries.len()
    &&& entries[i].type_ref matches Some(t) ==> t < entries.len()
}

/// One compilation unit: the ranges it covers and its entries in depth-first
/// pre-order.
#[derive(Debug)]
pub struct DebugUnit {
    pub ranges: Vec<Range>,
    pub entries: Vec<Entry>,
}

impl DebugUnit {
    pub open spec fn wf(&self) -> bool {
        forall|i: int| 0 <= i < self.entries@.len() ==> #[trigger] entry_ok(self.entries@, i)
    }

    /// Whether `b` lies on the parent chain of `v`.
    fn has_ancestor(&self, b: usize, v: usize) -> (r: bool)
        requires
            v < self.entries@.len(),
        ensures
            r == is_ancestor(self.entries@, b as int, v as int),
    {
        let mut cur = v;
        loop
            invariant
                cur < self.entries@.len(),
                is_ancestor(self.entries@, b as int, v as int) == is_ancestor(self.entries@, b as int, cur as int),
            decreases cur,
        {
            match self.entries[cur].parent {
                Some(q) => {
                    if q >= cur {
                        return false;
                    }
                    if q == b {
                        return true;
                    }
                    cur = q;
                },
                None => {
                    return false;
                },
            }
        }
    }

    /// Whether the entries form one tree in depth-first pre-order with
    /// references inside the unit.
    pub fn check_wf(&self) -> (r: bool)
        ensures
            r == self.wf(),
    {
        let n = self.entries.len();
        let mut i: usize = 0;
        while i < n
            invariant
                n == self.entries@.len(),
                0 <= i <= n,
                forall|k: int| 0 <= k < i ==> #[trigger] entry_ok(self.entries@, k),
            decreases n - i,
        {
            let e = &self.entries[i];
            let placed = if i == 0 {
                e.parent.is_none()
            } else {
                match e.parent {
                    Some(p) => p == i - 1 || self.has_ancestor(p, i - 1),
                    None => false,
                }
            };
            let origin_ok = match e.abstract_origin {
                Some(o) => o < n,
                None => true,
            };
            let type_ok = match e.type_ref {
                Some(t) => t < n,
                None => true,
            };
            if !(placed && origin_ok && type_ok) {
                assert(!entry_ok(self.entries@, i as int));
                return false;
            }
            i = i + 1;
        }
        true
    }
}

/// In a well-formed unit a parent comes before its children.
pub proof fn lemma_parent_before(u: &DebugUnit, i: int)
    requires
        u.wf(),
        0 <= i < u.entries@.len(),
    ensures
        u.entries@[i].parent matches Some(p) ==> p < i,
{
    assert(entry_ok(u.entries@, i));
    if i > 0 {
        let p = u.entries@[i].parent->Some_0 as int;
        if p != i - 1 {
            lemma_ancestor_below(u.entries@, p, i - 1);
        }
    }
}

/// Whether any of `ranges` covers `svma`.
pub fn covers_any(ranges: &Vec<Range>, svma: u64) -> (r: bool)
    ensures
        r == ranges_cover(ranges@, svma),
{
    let mut k: usize = 0;
    while k < ranges.len()
        invariant
            0 <= k <= ranges@.len(),
            forall|t: int| 0 <= t < k ==> !#[trigger] range_covers(ranges@[t], svma),
        decreases ranges@.len() - k,
    {
        let r = ranges[k];
        if r.begin <= svma && svma < r.end {
            assert(range_covers(ranges@[k as int], svma));
            return true;
        }
        k = k + 1;
    }
    false
}

/// The entry covers `svma` by its own ranges; an entry without range
/// information covers nothing.
pub open spec fn entry_covers(e: Entry, svma: u64) -> bool {
    e.ranges matches Some(rs) && ranges_cover(rs@, svma)
}

/// Whether the entry (or, for `None`, the unit itself) covers `svma`.
pub fn in_range(unit: &DebugUnit, entry: Option<usize>, svma: u64) -> (r: bool)
    requires
        entry matches Some(i) ==> i < unit.entries@.len(),
    ensures
        r == match entry {
            Some(i) => entry_covers(unit.entries@[i as int], svma),
            None => ranges_cover(unit.ranges@, svma),
        },
{
    match entry {
        Some(i) => match &unit.entries[i].ranges {
            Some(rs) => covers_any(rs, svma),
            None => false,
        },
        None => covers_any(&unit.ranges, svma),
    }
}

/// A range read from a unit's range list, with the unit it belongs to.
#[derive(Clone, Copy, Debug, PartialEq, Eq)]
pub struct CachedRange {
    pub range: Range,
    pub unit: usize,
}

/// The units of one debug-information blob, with a cache of the ranges of the
/// units read so far. Units are read in order, and `scanned` counts them: a
/// unit's range list is read in a call of `find` exactly when `scanned` moves
/// past it.
pub struct UnitMap {
    pub units: Vec<DebugUnit>,
    pub cached: Vec<CachedRange>,
    pub scanned: usize,
}

/// Some range of the unit covers `svma`.
pub open spec fn unit_covers(units: Seq<DebugUnit>, u: int, svma: u64) -> bool {
    0 <= u < units.len() && ranges_cover(units[u].ranges@, svma)
}

/// `u` is the first unit, in the order of the units, that covers `svma`.
pub open spec fn first_covering_unit(units: Seq<DebugUnit>, u: int, svma: u64) -> bool {
    &&& unit_covers(units, u, svma)
    &&& forall|v: int| 0 <= v < u ==> !#[trigger] unit_covers(units, v, svma)
}

/// The range list of unit `u` is read between the two states.
pub open spec fn reads_unit(before: UnitMap, after: UnitMap, u: int) -> bool {
    before.scanned <= u < after.scanned
}

impl UnitMap {
    pub open spec fn wf(&self) -> bool {
        &&& self.scanned <= self.units@.len()
        &&& forall|k: int| 0 <= k < self.cached@.len() ==> {
            &&& (#[trigger] self.cached@[k]).unit < self.scanned
            &&& self.units@[self.cached@[k].unit as int].ranges@.contains(self.cached@[k].range)
        }
        &&& forall|k1: int, k2: int| 0 <= k1 < k2 < self.cached@.len()
            ==> #[trigger] self.cached@[k1].unit <= #[trigger] self.cached@[k2].unit
        &&& forall|u: int, t: int| 0 <= u < self.scanned && 0 <= t < self.units@[u].ranges@.len()
            ==> self.cached@.contains(CachedRange { range: #[trigger] self.units@[u].ranges@[t], unit: u as usize })
    }

    /// Some cached range covers `svma`.
    pub open spec fn cache_covers(&self, svma: u64) -> bool {
        exists|k: int| 0 <= k < self.cached@.len() && #[trigger] range_covers(self.cached@[k].range, svma)
    }

    /// `k` is the first cached range that covers `svma`.
    pub open spec fn first_cached(&self, k: int, svma: u64) -> bool {
        &&& 0 <= k < self.cached@.len()
        &&& range_covers(self.cached@[k].range, svma)
        &&& forall|t: int| 0 <= t < k ==> !#[trigger] range_covers(self.cached@[t].range, svma)
    }

    pub fn new(units: Vec<DebugUnit>) -> (r: UnitMap)
        ensures
            r.wf(),
            r.units@ == units@,
            r.scanned == 0,
            r.cached@.len() == 0,
    {
        UnitMap { units, cached: Vec::new(), scanned: 0 }
    }

    /// Adds the next unit, for a caller that reads units only as queries need
    /// them; nothing is read from it until a query misses the cache.
    pub fn push_unit(&mut self, unit: DebugUnit)
        requires
            old(self).wf(),
        ensures
            final(self).wf(),
            final(self).units@ == old(self).units@.push(unit),
            final(self).cached@ == old(self).cached@,
            final(self).scanned == old(self).scanned,
    {
        let ghost before = self.units@;
        self.units.push(unit);
        proof {
            assert forall|k: int| 0 <= k < self.cached@.len() implies
                self.units@[self.cached@[k].unit as int] == before[self.cached@[k].unit as int] by {}
            assert forall|u: int, t: int| 0 <= u < self.scanned && 0 <= t < self.units@[u].ranges@.len()
                implies self.cached@.contains(CachedRange { range: #[trigger] self.units@[u].ranges@[t], unit: u as usize }) by {
                assert(self.units@[u] == before[u]);
                assert(before[u].ranges@[t] == self.units@[u].ranges@[t]);
            }
        }
    }

    /// The first unit that covers `svma`. The cache is consulted first; on a
    /// miss the units not read yet are read in order, their ranges added to
    /// the cache, until one covers `svma` or none is left.
    pub fn find(&mut self, svma: u64) -> (r: Option<usize>)
        requires
            old(self).wf(),
        ensures
            final(self).wf(),
            final(self).units@ == old(self).units@,
            old(self).cached@.is_prefix_of(final(self).cached@),
            old(self).scanned <= final(self).scanned,
            match r {
                Some(u) => first_covering_unit(old(self).units@, u as int, svma),
                None => forall|v: int| #![auto] !unit_covers(old(self).units@, v, svma),
            },
            old(self).cache_covers(svma) ==> {
                &&& final(self).scanned == old(self).scanned
                &&& final(self).cached@ == old(self).cached@
            },
            !old(self).cache_covers(svma) ==> match r {
                Some(u) => u + 1 == final(self).scanned,
                None => final(self).scanned == old(self).units@.len(),
            },
    {
        proof {
            self.lemma_scanned_units_cached(svma);
        }
        let mut k: usize = 0;
        while k < self.cached.len()
            invariant
                self.wf(),
                self.units@ == old(self).units@,
                self.cached@ == old(self).cached@,
                self.scanned == old(self).scanned,
                0 <= k <= self.cached@.len(),
                forall|t: int| 0 <= t < k ==> !#[trigger] range_covers(self.cached@[t].range, svma),
            decreases self.cached@.len() - k,
        {
            let c = self.cached[k];
            if c.range.begin <= svma && svma < c.range.end {
                assert(self.first_cached(k as int, svma));
                proof {
                    self.lemma_first_cached_is_first_unit(k as int, svma);
                }
                return Some(c.unit);
            }
            k = k + 1;
        }
        assert(!self.cache_covers(svma));
        let ghost start = self.scanned;
        let ghost old_cached = self.cached@;
        while self.scanned < self.units.len()
            invariant
                self.wf(),
                !old(self).cache_covers(svma),
                self.units@ == old(self).units@,
                start == old(self).scanned,
                start <= self.scanned,
                old_cached == old(self).cached@,
                old_cached.is_prefix_of(self.cached@),
                forall|v: int| 0 <= v < self.scanned ==> !#[trigger] unit_covers(self.units@, v, svma),
            decreases self.units@.len() - self.scanned,
        {
            let u = self.scanned;
            let n = self.units[u].ranges.len();
            let mut found = false;
            let mut t: usize = 0;
            let ghost before = self.cached@;
            let ghost pre = *self;
            while t < n
                invariant
                    pre.wf(),
                    pre.cached@ == before,
                    pre.units@ == self.units@,
                    pre.scanned == u,
                    self.scanned == u,
                    self.units@ == old(self).units@,
                    u < self.units@.len(),
                    n == self.units@[u as int].ranges@.len(),
                    0 <= t <= n,
                    self.cached@.len() == before.len() + t,
                    before.is_prefix_of(self.cached@),
                    forall|s: int| 0 <= s < t ==> #[trigger] self.cached@[before.len() + s]
                        == (CachedRange { range: self.units@[u as int].ranges@[s], unit: u }),
                    found == exists|s: int| 0 <= s < t && #[trigger] range_covers(self.units@[u as int].ranges@[s], svma),
                decreases n - t,
            {
                let range = self.units[u].ranges[t];
                if range.begin <= svma && svma < range.end {
                    found = true;
                    assert(range_covers(self.units@[u as int].ranges@[t as int], svma));
                }
                self.cached.push(CachedRange { range, unit: u });
                t = t + 1;
            }
            self.scanned = u + 1;
            proof {
                let c = self.cached@;
                let rs = self.units@[u as int].ranges@;
                assert forall|k: int| 0 <= k < c.len() implies {
                    &&& (#[trigger] c[k]).unit < self.scanned
                    &&& self.units@[c[k].unit as int].ranges@.contains(c[k].range)
                } by {
                    if k >= before.len() {
                        let s = k - before.len();
                        assert(c[before.len() + s] == CachedRange { range: rs[s], unit: u });
                    } else {
                        assert(c[k] == before[k]);
                    }
                }
                assert forall|k1: int, k2: int| 0 <= k1 < k2 < c.len()
                    implies #[trigger] c[k1].unit <= #[trigger] c[k2].unit by {
                    if k2 >= before.len() {
                        let s2 = k2 - before.len();
                        assert(c[before.len() + s2] == CachedRange { range: rs[s2], unit: u });
                        if k1 >= before.len() {
                            let s1 = k1 - before.len();
                            assert(c[before.len() + s1] == CachedRange { range: rs[s1], unit: u });
                        } else {
                            assert(c[k1] == before[k1]);
                        }
                    } else {
                        assert(c[k1] == before[k1]);
                        assert(c[k2] == before[k2]);
                    }
                }
                assert forall|v: int, s: int| 0 <= v < self.scanned && 0 <= s < self.units@[v].ranges@.len()
                    implies c.contains(CachedRange { range: #[trigger] self.units@[v].ranges@[s], unit: v as usize }) by {
                    if v == u {
                        assert(c[before.len() + s] == CachedRange { range: rs[s], unit: u });
                    } else {
                        let w = choose|w: int| 0 <= w < before.len() && before[w] == CachedRange { range: self.units@[v].ranges@[s], unit: v as usize };
                        assert(c[w] == before[w]);
                    }
                }
                assert(old_cached.is_prefix_of(c));
                if !found {
                    assert(!unit_covers(self.units@, u as int, svma));
                } else {
                    let s = choose|s: int| 0 <= s < n && #[trigger] range_covers(rs[s], svma);
                    assert(range_covers(rs[s], svma));
                }
            }
            if found {
                return Some(u);
            }
        }
        None
    }

    /// A unit already read that covers `svma` has a cached range covering it,
    /// so a cache miss means no unit read so far covers `svma`.
    proof fn lemma_scanned_units_cached(&self, svma: u64)
        requires
            self.wf(),
        ensures
            forall|u: int| 0 <= u < self.scanned && #[trigger] unit_covers(self.units@, u, svma) ==> self.cache_covers(svma),
    {
        assert forall|u: int| 0 <= u < self.scanned && #[trigger] unit_covers(self.units@, u, svma) implies self.cache_covers(svma) by {
            let rs = self.units@[u].ranges@;
            let t = choose|t: int| 0 <= t < rs.len() && #[trigger] range_covers(rs[t], svma);
            let c = CachedRange { range: rs[t], unit: u as usize };
            assert(self.cached@.contains(c));
            let k = choose|k: int| 0 <= k < self.cached@.len() && self.cached@[k] == c;
            assert(range_covers(self.cached@[k].range, svma));
        }
    }

    /// The first cached range that covers `svma` belongs to the first unit
    /// that covers it: the cache is ordered by unit and holds every range of
    /// the units read so far.
    proof fn lemma_first_cached_is_first_unit(&self, k: int, svma: u64)
        requires
            self.wf(),
            self.first_cached(k, svma),
        ensures
            first_covering_unit(self.units@, self.cached@[k].unit as int, svma),
    {
        let u = self.cached@[k].unit as int;
        let rs = self.units@[u].ranges@;
        let t = choose|t: int| 0 <= t < rs.len() && rs[t] == self.cached@[k].range;
        assert(range_covers(rs[t], svma));
        assert(unit_covers(self.units@, u, svma));
        assert forall|v: int| 0 <= v < u implies !#[trigger] unit_covers(self.units@, v, svma) by {
            if unit_covers(self.units@, v, svma) {
                let vs = self.units@[v].ranges@;
                let s = choose|s: int| 0 <= s < vs.len() && #[trigger] range_covers(vs[s], svma);
                let c = CachedRange { range: vs[s], unit: v as usize };
                assert(self.cached@.contains(c));
                let w = choose|w: int| 0 <= w < self.cached@.len() && self.cached@[w] == c;
                assert(range_covers(self.cached@[w].range, svma));
                if w > k {
                    assert(self.cached@[k].unit <= self.cached@[w].unit);
                }
            }
        }
    }
}

/// Queries for addresses of one unit `u`, in any number and order, read that
/// unit's range list at most once: `states` are the maps before and after each
/// of the calls of `find`, each called with one of `addresses`, all covered by
/// unit `u`. Once the unit is read, no later query reads anything.
pub proof fn lemma_unit_read_once(states: Seq<UnitMap>, addresses: Seq<u64>, u: int)
    requires
        states.len() == addresses.len() + 1,
        forall|k: int| 0 <= k < states.len() ==> (#[trigger] states[k]).wf(),
        forall|k: int| 0 <= k < addresses.len() ==> #[trigger] unit_covers(states[0].units@, u, addresses[k]),
        forall|k: int| 0 <= k < addresses.len() ==> {
            &&& (#[trigger] states[k + 1]).units@ == states[k].units@
            &&& states[k].scanned <= states[k + 1].scanned
            &&& states[k].cache_covers(addresses[k]) ==> states[k + 1].scanned == states[k].scanned
        },
    ensures
        forall|k1: int, k2: int| 0 <= k1 < k2 < addresses.len()
            ==> !(#[trigger] reads_unit(states[k1], states[k1 + 1], u) && #[trigger] reads_unit(states[k2], states[k2 + 1], u)),
        forall|k: int| 0 <= k < addresses.len() && u < states[k].scanned
            ==> #[trigger] states[k + 1].scanned == states[k].scanned,
{
    assert forall|k: int| 0 <= k < states.len() implies (#[trigger] states[k]).units@ == states[0].units@ by {
        lemma_units_kept(states, addresses, k);
    }
    assert forall|k: int| 0 <= k < addresses.len() && u < states[k].scanned
        implies #[trigger] states[k + 1].scanned == states[k].scanned by {
        let m = states[k];
        let rs = m.units@[u].ranges@;
        assert(unit_covers(states[0].units@, u, addresses[k]));
        let t = choose|t: int| 0 <= t < rs.len() && #[trigger] range_covers(rs[t], addresses[k]);
        let c = CachedRange { range: rs[t], unit: u as usize };
        assert(m.cached@.contains(c));
        let w = choose|w: int| 0 <= w < m.cached@.len() && m.cached@[w] == c;
        assert(range_covers(m.cached@[w].range, addresses[k]));
    }
    assert forall|k1: int, k2: int| 0 <= k1 < k2 < addresses.len()
        implies !(#[trigger] reads_unit(states[k1], states[k1 + 1], u) && #[trigger] reads_unit(states[k2], states[k2 + 1], u)) by {
        lemma_scanned_grows(states, addresses, k1 + 1, k2);
    }
}

proof fn lemma_units_kept(states: Seq<UnitMap>, addresses: Seq<u64>, k: int)
    requires
        states.len() == addresses.len() + 1,
        0 <= k < states.len(),
        forall|j: int| 0 <= j < addresses.len() ==> (#[trigger] states[j + 1]).units@ == states[j].units@,
    ensures
        states[k].units@ == states[0].units@,
    decreases k,
{
    if k > 0 {
        lemma_units_kept(states, addresses, k - 1);
        assert(states[(k - 1) + 1].units@ == states[k - 1].units@);
    }
}

proof fn lemma_scanned_grows(states: Seq<UnitMap>, addresses: Seq<u64>, a: int, b: int)
    requires
        states.len() == addresses.len() + 1,
        0 <= a <= b < states.len(),
        forall|k: int| 0 <= k < addresses.len() ==> {
            &&& (#[trigger] states[k + 1]).units@ == states[k].units@
            &&& states[k].scanned <= states[k + 1].scanned
            &&& states[k].cache_covers(addresses[k]) ==> states[k + 1].scanned == states[k].scanned
        },
    ensures
        states[a].scanned <= states[b].scanned,
    decreases b - a,
{
    if a < b {
        lemma_scanned_grows(states, addresses, a, b - 1);
        assert(states[(b - 1) + 1].scanned >= states[b - 1].scanned);
    }
}

} // verus!
