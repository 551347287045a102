//! Hands out sub-ranges of a fixed range of `u64` values.
use vstd::prelude::*;
use std::collections::BTreeMap;
use core::ops::Range;
use vstd::std_specs::iter::IteratorSpec;
use vstd::std_specs::cmp::OrdSpec;

verus! {

broadcast use vstd::std_specs::btree::group_btree_axioms, vstd::laws_cmp::group_laws_cmp;

/// Strictly increasing.
pub open spec fn increasing(s: Seq<u64>) -> bool {
    forall|i: int, j: int| 0 <= i < j < s.len() ==> s[i] < s[j]
}

/// The keys of `m` in increasing order.
pub open spec fn sorted_keys<V>(m: Map<u64, V>) -> Seq<u64> {
    choose|s: Seq<u64>| increasing(s) && s.to_set() == m.dom()
}

/// The allocated ranges, ordered by their start.
pub open spec fn entries(m: Map<u64, Range<u64>>) -> Seq<Range<u64>> {
    sorted_keys(m).map_values(|k: u64| m[k])
}

/// Where the hole in front of the `i`-th allocated range starts: the end of
/// the range before it, or the start of the total range.
pub open spec fn gap_start(e: Seq<Range<u64>>, ts: u64, i: int) -> int {
    if i == 0 {
        ts as int
    } else {
        e[i - 1].end as int
    }
}

/// The room left in the hole in front of the `i`-th range after placing `size` in it.
pub open spec fn hole(e: Seq<Range<u64>>, ts: u64, size: int, i: int) -> int {
    e[i].start - (gap_start(e, ts, i) + size)
}

/// A range of `size` fits into the hole in front of the `i`-th range.
pub open spec fn fits_before(e: Seq<Range<u64>>, ts: u64, te: u64, size: int, i: int) -> bool {
    &&& 0 <= i < e.len()
    &&& e[i].start > gap_start(e, ts, i)
    &&& gap_start(e, ts, i) + size <= e[i].start
    &&& ts <= gap_start(e, ts, i)
    &&& gap_start(e, ts, i) + size <= te
    &&& hole(e, ts, size, i) < u64::MAX
}

/// Among the holes before the first `n` ranges, the one in front of range `i`
/// is the tightest fit, and the first one with that room.
pub open spec fn best_fit_below(
    e: Seq<Range<u64>>,
    ts: u64,
    te: u64,
    size: int,
    i: int,
    n: int,
) -> bool {
    &&& i < n
    &&& fits_before(e, ts, te, size, i)
    &&& forall|j: int| 0 <= j < n && fits_before(e, ts, te, size, j) ==> hole(e, ts, size, i) <= hole(e, ts, size, j)
    &&& forall|j: int| 0 <= j < i && fits_before(e, ts, te, size, j) ==> hole(e, ts, size, j) > hole(e, ts, size, i)
}

/// Some hole between the first `n` ranges fits `size`.
pub open spec fn some_fit_below(e: Seq<Range<u64>>, ts: u64, te: u64, size: int, n: int) -> bool {
    exists|j: int| 0 <= j < n && fits_before(e, ts, te, size, j)
}

/// The range of `size` starting at the end of the last range (or at the total start).
pub open spec fn tail_range(e: Seq<Range<u64>>, ts: u64, size: int) -> (int, int) {
    (gap_start(e, ts, e.len() as int), gap_start(e, ts, e.len() as int) + size)
}

/// `r` lies in `[ts, te)`.
pub open spec fn within(ts: u64, te: u64, start: int, end: int) -> bool {
    ts <= start && end <= te
}

/// The two half-open ranges share a value.
pub open spec fn overlap(r1: Range<u64>, r2: Range<u64>) -> bool {
    r1.start < r2.end && r1.end > r2.start
}

/// What allocating `size` values gives: a range in the tightest hole that
/// fits it (the first on a tie), else the range after the last one if it
/// fits in the total range, else nothing.
pub open spec fn allocates_size(allocated: Map<u64, Range<u64>>, total: Range<u64>, size: int, r: Option<Range<u64>>) -> bool {
    let e = entries(allocated);
    let ts = total.start;
    let te = total.end;
    let n = e.len() as int;
    &&& some_fit_below(e, ts, te, size as int, n) ==> exists|i: int|
        #![trigger fits_before(e, ts, te, size as int, i)]
        best_fit_below(e, ts, te, size as int, i, n) && r == Some(
            Range { start: gap_start(e, ts, i) as u64, end: (gap_start(e, ts, i) + size) as u64 },
        )
    &&& !some_fit_below(e, ts, te, size as int, n) && within(ts, te, tail_range(e, ts, size as int).0, tail_range(e, ts, size as int).1)
        ==> r == Some(
        Range {
            start: tail_range(e, ts, size as int).0 as u64,
            end: tail_range(e, ts, size as int).1 as u64,
        },
    )
    &&& !some_fit_below(e, ts, te, size as int, n) && !within(ts, te, tail_range(e, ts, size as int).0, tail_range(e, ts, size as int).1)
        ==> r is None
}

/// A range handed out for a positive size holds exactly `size` values and
/// lies within the total range.
pub proof fn lemma_allocated_range(allocated: Map<u64, Range<u64>>, total: Range<u64>, size: int, r: Option<Range<u64>>)
    requires
        size > 0,
        allocates_size(allocated, total, size, r),
        r is Some,
    ensures
        r->0.start < r->0.end,
        r->0.end - r->0.start == size,
        total.start <= r->0.start,
        r->0.end <= total.end,
{
    let e = entries(allocated);
    let ts = total.start;
    let te = total.end;
    let n = e.len() as int;
    if some_fit_below(e, ts, te, size, n) {
        let i = choose|i: int| #![trigger fits_before(e, ts, te, size, i)] best_fit_below(e, ts, te, size, i, n)
            && r == Some(Range { start: gap_start(e, ts, i) as u64, end: (gap_start(e, ts, i) + size) as u64 });
        assert(fits_before(e, ts, te, size, i));
    }
}

/// The ranges handed out lie within `total`, each under its start, and no
/// two of them overlap.
pub open spec fn disjoint_ranges(allocated: Map<u64, Range<u64>>, total: Range<u64>) -> bool {
    &&& forall|k: u64|
        #[trigger] allocated.contains_key(k) ==> allocated[k].start == k && total.start <= k && k <= allocated[k].end
            && allocated[k].end <= total.end
    &&& forall|k1: u64, k2: u64|
        #[trigger] allocated.contains_key(k1) && #[trigger] allocated.contains_key(k2) && k1 != k2 ==> !overlap(
            allocated[k1],
            allocated[k2],
        )
}

/// A new allocator has nothing handed out, so its ranges are disjoint.
pub proof fn lemma_empty_disjoint(total: Range<u64>)
    ensures
        disjoint_ranges(Map::<u64, Range<u64>>::empty(), total),
{
}

/// Taking a free range (`try_allocate_range` returning `true`, or what
/// `try_allocate_size` hands out, which is free) keeps the ranges disjoint.
pub proof fn lemma_allocate_keeps_disjoint(allocated: Map<u64, Range<u64>>, total: Range<u64>, range: Range<u64>)
    requires
        disjoint_ranges(allocated, total),
        range_free(allocated, total, range),
        range.start <= range.end,
    ensures
        disjoint_ranges(allocated.insert(range.start, range), total),
{
    let m = allocated.insert(range.start, range);
    assert forall|k1: u64, k2: u64| #[trigger] m.contains_key(k1) && #[trigger] m.contains_key(k2) && k1 != k2 implies !overlap(
        m[k1],
        m[k2],
    ) by {
        if k1 == range.start {
            assert(allocated.contains_key(k2));
        } else if k2 == range.start {
            assert(allocated.contains_key(k1));
        } else {
            assert(allocated.contains_key(k1) && allocated.contains_key(k2));
        }
    }
}

/// With disjoint ranges listed by increasing start in `keys`, the range of
/// `size` at the start of the hole in front of range `i` (or after the last
/// range, for `i` the number of ranges) is free if it fits there.
proof fn lemma_gap_free(allocated: Map<u64, Range<u64>>, total: Range<u64>, keys: Seq<u64>, size: int, i: int)
    requires
        disjoint_ranges(allocated, total),
        increasing(keys),
        keys.to_set() == allocated.dom(),
        0 <= size,
        0 <= i <= keys.len(),
        i < keys.len() ==> fits_before(keys.map_values(|k: u64| allocated[k]), total.start, total.end, size, i),
        i == keys.len() ==> within(
            total.start,
            total.end,
            gap_start(keys.map_values(|k: u64| allocated[k]), total.start, i),
            gap_start(keys.map_values(|k: u64| allocated[k]), total.start, i) + size,
        ),
        gap_start(keys.map_values(|k: u64| allocated[k]), total.start, i) + size <= u64::MAX,
    ensures
        ({
            let g = gap_start(keys.map_values(|k: u64| allocated[k]), total.start, i);
            range_free(allocated, total, Range { start: g as u64, end: (g + size) as u64 })
        }),
{
    let e = keys.map_values(|k: u64| allocated[k]);
    let g = gap_start(e, total.start, i);
    let r = Range { start: g as u64, end: (g + size) as u64 };
    assert forall|j: int| 0 <= j < keys.len() implies #[trigger] allocated.contains_key(keys[j]) by {
        assert(keys.to_set().contains(keys[j]));
    }
    assert forall|k: u64| #[trigger] allocated.contains_key(k) implies !overlap(allocated[k], r) by {
        assert(keys.to_set().contains(k));
        let j = choose|j: int| 0 <= j < keys.len() && keys[j] == k;
        assert(e[j] == allocated[k]);
        if j < i {
            let p = i - 1;
            assert(allocated.contains_key(keys[p]));
            if j < p {
                assert(keys[j] < keys[p]);
                assert(!overlap(allocated[keys[j]], allocated[keys[p]]));
            }
            assert(e[j].end <= g);
        } else {
            assert(allocated.contains_key(keys[i]));
            if j > i {
                assert(keys[i] < keys[j]);
            }
            assert(e[j].start >= g + size);
        }
    }
}

/// Giving a range back keeps the ranges disjoint.
pub proof fn lemma_deallocate_keeps_disjoint(allocated: Map<u64, Range<u64>>, total: Range<u64>, start: u64)
    requires
        disjoint_ranges(allocated, total),
    ensures
        disjoint_ranges(allocated.remove(start), total),
{
}

/// A range given back is free again: with disjoint ranges, once
/// `deallocate_range` has taken back a range handed out, `try_allocate_range`
/// of that same range succeeds.
pub proof fn lemma_freed_range_is_free(allocated: Map<u64, Range<u64>>, total: Range<u64>, range: Range<u64>)
    requires
        disjoint_ranges(allocated, total),
        allocated.contains_key(range.start),
        allocated[range.start] == range,
    ensures
        range_free(allocated.remove(range.start), total, range),
{
    let m = allocated.remove(range.start);
    assert forall|k: u64| #[trigger] m.contains_key(k) implies !overlap(m[k], range) by {
        assert(allocated.contains_key(k) && k != range.start);
        assert(!overlap(allocated[k], allocated[range.start]));
    }
}

/// `range` lies within `total` and overlaps none of the `allocated` ranges.
pub open spec fn range_free(allocated: Map<u64, Range<u64>>, total: Range<u64>, range: Range<u64>) -> bool {
    &&& forall|k: u64| #[trigger] allocated.contains_key(k) ==> !overlap(allocated[k], range)
    &&& total.start <= range.start
    &&& total.end >= range.end
}

/// Hands out sub-ranges of `total_range`, best fit first.
pub struct RangeAllocator {
    total_range: Range<u64>,
    allocated_ranges: BTreeMap<u64, Range<u64>>,
}

impl RangeAllocator {
    /// The ranges handed out, keyed by their start.
    pub closed spec fn allocated(&self) -> Map<u64, Range<u64>> {
        self.allocated_ranges@
    }

    pub closed spec fn total(&self) -> Range<u64> {
        self.total_range
    }

    /// The ranges handed out lie within the total range and do not overlap.
    pub open spec fn disjoint(&self) -> bool {
        disjoint_ranges(self.allocated(), self.total())
    }

    pub fn new(total_range: Range<u64>) -> (r: Self)
        ensures
            r.total() == total_range,
            r.allocated() == Map::<u64, Range<u64>>::empty(),
            r.disjoint(),
    {
        Self { total_range, allocated_ranges: BTreeMap::new() }
    }

    /// Allocates `size` values: in the tightest hole between the ranges
    /// handed out (the first such hole on a tie), else after the last range.
    pub fn try_allocate_size(&mut self, size: usize) -> (r: Option<Range<u64>>)
        ensures
            final(self).total() == old(self).total(),
            allocates_size(old(self).allocated(), old(self).total(), size as int, r),
            r is Some ==> final(self).allocated() == old(self).allocated().insert(r->0.start, r->0),
            r is None ==> final(self).allocated() == old(self).allocated(),
            r is Some && disjoint_ranges(old(self).allocated(), old(self).total()) ==> range_free(
                old(self).allocated(),
                old(self).total(),
                r->0,
            ) && r->0.start <= r->0.end,
            old(self).disjoint() ==> final(self).disjoint(),
            size > 0 && r is Some ==> r->0.end - r->0.start == size && old(self).total().start <= r->0.start
                && r->0.end <= old(self).total().end,
    {
        let ghost m = self.allocated_ranges@;
        let ts = self.total_range.start;
        let te = self.total_range.end;
        let mut candidate_range: Option<Range<u64>> = None;
        let mut hole_size: u64 = u64::MAX;
        let mut last_end = self.total_range.start;
        proof {
            lemma_u64_keys_ordered();
        }
        let values = self.allocated_ranges.values();
        let ghost keys = choose|key_seq: Seq<u64>|
            {
                &&& vstd::std_specs::btree::increasing_seq(key_seq)
                &&& key_seq.to_set() == m.dom()
                &&& key_seq.no_duplicates()
                &&& IteratorSpec::remaining(&values) == key_seq.map(|i: int, k| &m[k])
            };
        proof {
            lemma_increasing_keys(keys);
            lemma_sorted_keys(m, keys);
        }
        let ghost e = entries(m);
        assert(e.len() == keys.len());
        let ghost mut seen: int = 0;
        for allocated in it: values
            invariant
                seen == it.index(),
                it.seq() == keys.map(|i: int, k| &m[k]),
                e == keys.map_values(|k: u64| m[k]),
                ts == self.total_range.start,
                te == self.total_range.end,
                last_end == gap_start(e, ts, it.index() as int),
                candidate_range is None ==> hole_size == u64::MAX && !some_fit_below(e, ts, te, size as int, it.index() as int),
                candidate_range is Some ==> exists|i: int|
                    #![trigger fits_before(e, ts, te, size as int, i)]
                    best_fit_below(e, ts, te, size as int, i, it.index() as int)
                        && candidate_range == Some(
                        Range { start: gap_start(e, ts, i) as u64, end: (gap_start(e, ts, i) + size) as u64 },
                    ) && hole_size == hole(e, ts, size as int, i),
        {
            let ghost idx = it.index() as int;
            assert(*allocated == e[idx]);
            if allocated.start > last_end {
                match last_end.checked_add(size as u64) {
                    Some(end) => {
                        let potential_range = Range { start: last_end, end };
                        if potential_range.end <= allocated.start && self.contains_range(&potential_range) {
                            let tmp_hole_size = allocated.start - potential_range.end;
                            if tmp_hole_size < hole_size {
                                candidate_range = Some(potential_range);
                                hole_size = tmp_hole_size;
                                assert(best_fit_below(e, ts, te, size as int, idx, idx + 1));
                            } else {
                                assert(!fits_before(e, ts, te, size as int, idx) || candidate_range is Some);
                            }
                        }
                    },
                    None => {},
                }
            }
            last_end = allocated.end;
            proof {
                if candidate_range is Some {
                    let i = choose|i: int|
                        #![trigger fits_before(e, ts, te, size as int, i)]
                        best_fit_below(e, ts, te, size as int, i, idx + 1) && candidate_range == Some(
                            Range { start: gap_start(e, ts, i) as u64, end: (gap_start(e, ts, i) + size) as u64 },
                        ) && hole_size == hole(e, ts, size as int, i);
                    assert(best_fit_below(e, ts, te, size as int, i, idx + 1));
                }
                seen = seen + 1;
            }
        }
        assert(seen == e.len());
        if candidate_range.is_none() {
            match last_end.checked_add(size as u64) {
                Some(end) => {
                    let potential_range = Range { start: last_end, end };
                    if self.contains_range(&potential_range) {
                        candidate_range = Some(potential_range)
                    }
                },
                None => {},
            }
        }
        proof {
            if candidate_range is Some && disjoint_ranges(m, self.total()) {
                if some_fit_below(e, ts, te, size as int, e.len() as int) {
                    let i = choose|i: int|
                        #![trigger fits_before(e, ts, te, size as int, i)]
                        best_fit_below(e, ts, te, size as int, i, e.len() as int) && candidate_range == Some(
                            Range { start: gap_start(e, ts, i) as u64, end: (gap_start(e, ts, i) + size) as u64 },
                        ) && hole_size == hole(e, ts, size as int, i);
                    lemma_gap_free(m, self.total(), keys, size as int, i);
                } else {
                    lemma_gap_free(m, self.total(), keys, size as int, e.len() as int);
                }
            }
        }
        proof {
            if size > 0 && candidate_range is Some {
                lemma_allocated_range(m, self.total(), size as int, candidate_range);
            }
        }
        if let Some(ref range) = candidate_range {
            self.allocated_ranges.insert(range.start, Range { start: range.start, end: range.end });
            proof {
                if disjoint_ranges(m, self.total()) {
                    lemma_allocate_keeps_disjoint(m, self.total(), *range);
                }
            }
        }
        candidate_range
    }

    /// Whether `range` lies within the total range.
    pub fn contains_range(&self, range: &Range<u64>) -> (r: bool)
        ensures
            r == (self.total().start <= range.start && self.total().end >= range.end),
    {
        self.total_range.start <= range.start && self.total_range.end >= range.end
    }

    /// Whether the two half-open ranges share a value.
    pub fn ranges_overlap(r1: &Range<u64>, r2: &Range<u64>) -> (r: bool)
        ensures
            r == overlap(*r1, *r2),
    {
        r1.start < r2.end && r1.end > r2.start
    }

    /// Allocates exactly `range`, if it lies within the total range and
    /// overlaps nothing handed out.
    pub fn try_allocate_range(&mut self, range: Range<u64>) -> (r: bool)
        ensures
            final(self).total() == old(self).total(),
            r == range_free(old(self).allocated(), old(self).total(), range),
            r ==> final(self).allocated() == old(self).allocated().insert(range.start, range),
            !r ==> final(self).allocated() == old(self).allocated(),
            old(self).disjoint() && range.start <= range.end ==> final(self).disjoint(),
    {
        let ghost m = self.allocated_ranges@;
        proof {
            lemma_u64_keys_ordered();
        }
        let values = self.allocated_ranges.values();
        let ghost keys = choose|key_seq: Seq<u64>|
            {
                &&& vstd::std_specs::btree::increasing_seq(key_seq)
                &&& key_seq.to_set() == m.dom()
                &&& key_seq.no_duplicates()
                &&& IteratorSpec::remaining(&values) == key_seq.map(|i: int, k| &m[k])
            };
        let mut not_contained = true;
        let ghost mut seen: int = 0;
        for allocated in it: values
            invariant
                seen == it.index(),
                it.seq() == keys.map(|i: int, k| &m[k]),
                not_contained == (forall|j: int| 0 <= j < it.index() ==> !overlap(m[#[trigger] keys[j]], range)),
        {
            let ghost idx = it.index() as int;
            assert(*allocated == m[keys[idx]]);
            if Self::ranges_overlap(allocated, &range) {
                not_contained = false;
            }
            proof {
                seen = seen + 1;
            }
        }
        proof {
            assert(keys.len() == seen);
            if not_contained {
                assert forall|k: u64| #[trigger] m.contains_key(k) implies !overlap(m[k], range) by {
                    assert(keys.to_set().contains(k));
                    let j = choose|j: int| 0 <= j < keys.len() && keys[j] == k;
                }
            } else {
                let j = choose|j: int| 0 <= j < keys.len() && overlap(m[#[trigger] keys[j]], range);
                assert(keys.to_set().contains(keys[j]));
                assert(m.contains_key(keys[j]));
            }
            assert(m == old(self).allocated());
            assert(not_contained == (forall|k: u64| #[trigger] m.contains_key(k) ==> !overlap(m[k], range)));
        }
        if not_contained && self.contains_range(&range) {
            let ghost taken = range;
            self.allocated_ranges.insert(range.start, range);
            proof {
                if disjoint_ranges(m, self.total()) && taken.start <= taken.end {
                    lemma_allocate_keeps_disjoint(m, self.total(), taken);
                }
            }
            true
        } else {
            false
        }
    }

    /// Gives back `range`, if exactly that range was handed out.
    pub fn deallocate_range(&mut self, range: Range<u64>) -> (r: bool)
        ensures
            final(self).total() == old(self).total(),
            r == (old(self).allocated().contains_key(range.start) && old(self).allocated()[range.start]
                == range),
            r ==> final(self).allocated() == old(self).allocated().remove(range.start),
            !r ==> final(self).allocated() == old(self).allocated(),
            old(self).disjoint() ==> final(self).disjoint(),
    {
        proof {
            lemma_u64_keys_ordered();
        }
        let found = match self.allocated_ranges.get(&range.start) {
            Some(stored_range) => stored_range.start == range.start && stored_range.end == range.end,
            None => false,
        };
        if found {
            self.allocated_ranges.remove(&range.start);
            return true;
        }
        false
    }
}

/// `u64` keys are totally ordered as the map expects.
proof fn lemma_u64_keys_ordered()
    ensures
        vstd::laws_cmp::obeys_cmp::<u64>(),
        vstd::std_specs::btree::key_obeys_cmp_spec::<u64>(),
{
}

/// The order that the map hands its keys out in is increasing.
proof fn lemma_increasing_keys(keys: Seq<u64>)
    requires
        vstd::std_specs::btree::increasing_seq(keys),
    ensures
        increasing(keys),
{
    assert forall|i: int, j: int| 0 <= i < j < keys.len() implies keys[i] < keys[j] by {
        assert(keys[i].cmp_spec(&keys[j]) is Less);
    }
}

/// Two increasing sequences with the same elements are equal.
proof fn lemma_increasing_unique(s1: Seq<u64>, s2: Seq<u64>)
    requires
        increasing(s1),
        increasing(s2),
        s1.to_set() == s2.to_set(),
    ensures
        s1 == s2,
    decreases s1.len(),
{
    if s1.len() == 0 {
        if s2.len() > 0 {
            assert(s2.to_set().contains(s2[0]));
        }
        assert(s2.len() == 0);
    } else {
        assert(s1.to_set().contains(s1[0]));
        assert(s2.len() > 0);
        assert(s2.to_set().contains(s2[0]));
        let j = choose|j: int| 0 <= j < s2.len() && s2[j] == s1[0];
        let k = choose|k: int| 0 <= k < s1.len() && s1[k] == s2[0];
        assert(s1[0] == s2[0]);
        let t1 = s1.drop_first();
        let t2 = s2.drop_first();
        assert forall|x: u64| t1.to_set().contains(x) implies t2.to_set().contains(x) by {
            let a = choose|a: int| 0 <= a < t1.len() && t1[a] == x;
            assert(s1.to_set().contains(x));
            let b = choose|b: int| 0 <= b < s2.len() && s2[b] == x;
            assert(b != 0);
            assert(t2[b - 1] == x);
        }
        assert forall|x: u64| t2.to_set().contains(x) implies t1.to_set().contains(x) by {
            let a = choose|a: int| 0 <= a < t2.len() && t2[a] == x;
            assert(s2.to_set().contains(x));
            let b = choose|b: int| 0 <= b < s1.len() && s1[b] == x;
            assert(b != 0);
            assert(t1[b - 1] == x);
        }
        assert(t1.to_set() =~= t2.to_set());
        lemma_increasing_unique(t1, t2);
        assert(s1.len() == s2.len());
        assert forall|i: int| 0 <= i < s1.len() implies s1[i] == s2[i] by {
            if i > 0 {
                assert(s1[i] == t1[i - 1]);
                assert(s2[i] == t2[i - 1]);
            }
        }
        assert(s1 =~= s2);
    }
}

/// Any increasing listing of the keys is the sorted one.
proof fn lemma_sorted_keys(m: Map<u64, Range<u64>>, keys: Seq<u64>)
    requires
        increasing(keys),
        keys.to_set() == m.dom(),
    ensures
        sorted_keys(m) == keys,
        entries(m) == keys.map_values(|k: u64| m[k]),
{
    let s = sorted_keys(m);
    assert(increasing(s) && s.to_set() == m.dom());
    lemma_increasing_unique(s, keys);
}

} // verus!
