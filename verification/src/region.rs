//! Regions of the kernel's virtual address space and the named ranges
//! allocated in them.
use vstd::prelude::*;
use core::ops::Range;
use vstd::std_specs::convert::FromSpecImpl;
use crate::error::MemoryError;
use crate::memory::{Page, PageAlignedSize, PageRangeInclusive, PhysicalFrame, Size4KiB, VirtualAddress};
use crate::paging::PageTableEntryFlags;
use crate::range_allocator::{
    allocates_size, disjoint_ranges, lemma_allocate_keeps_disjoint, lemma_deallocate_keeps_disjoint, range_free, RangeAllocator,
};
use crate::virtual_memory_object::MemoryBackedVirtualMemoryObject;


verus! {

/// How a region may be accessed.
#[derive(Clone, Copy, Debug, PartialEq, Eq, Structural)]
pub enum AccessFlags {
    Read,
    ReadWrite,
    Execute,
    ReadWriteExecute,
}

impl Default for AccessFlags {
    fn default() -> (r: Self)
        ensures
            r == AccessFlags::Read,
    {
        AccessFlags::Read
    }
}

/// Page table flag: writable.
pub const WRITABLE: u64 = 2;

/// Page table flag: not executable.
pub const NO_EXECUTE: u64 = 0x8000_0000_0000_0000;

/// The page table flags of an access: reading is always allowed, writing
/// needs `WRITABLE`, and `NO_EXECUTE` forbids executing.
pub open spec fn access_bits(a: AccessFlags) -> u64 {
    match a {
        AccessFlags::Read => NO_EXECUTE,
        AccessFlags::ReadWrite => WRITABLE | NO_EXECUTE,
        AccessFlags::Execute => 0,
        AccessFlags::ReadWriteExecute => WRITABLE,
    }
}

/// The access that page table flags allow.
pub open spec fn access_of(bits: u64) -> AccessFlags {
    if bits & (WRITABLE | NO_EXECUTE) == WRITABLE | NO_EXECUTE {
        AccessFlags::ReadWrite
    } else if bits & WRITABLE == WRITABLE {
        AccessFlags::ReadWriteExecute
    } else if bits & NO_EXECUTE == NO_EXECUTE {
        AccessFlags::Read
    } else {
        AccessFlags::Execute
    }
}

impl From<AccessFlags> for PageTableEntryFlags {
    fn from(a: AccessFlags) -> (r: Self) {
        match a {
            AccessFlags::Read => PageTableEntryFlags::no_execute(),
            AccessFlags::ReadWrite => PageTableEntryFlags::writable().union(PageTableEntryFlags::no_execute()),
            AccessFlags::Execute => PageTableEntryFlags::none(),
            AccessFlags::ReadWriteExecute => PageTableEntryFlags::writable(),
        }
    }
}

impl FromSpecImpl<AccessFlags> for PageTableEntryFlags {
    open spec fn obeys_from_spec() -> bool {
        true
    }

    open spec fn from_spec(a: AccessFlags) -> Self {
        PageTableEntryFlags { bits: access_bits(a) }
    }
}

impl From<PageTableEntryFlags> for AccessFlags {
    fn from(flags: PageTableEntryFlags) -> (r: Self) {
        if flags.contains(PageTableEntryFlags::writable().union(PageTableEntryFlags::no_execute())) {
            AccessFlags::ReadWrite
        } else if flags.contains(PageTableEntryFlags::writable()) {
            AccessFlags::ReadWriteExecute
        } else if flags.contains(PageTableEntryFlags::no_execute()) {
            AccessFlags::Read
        } else {
            AccessFlags::Execute
        }
    }
}

impl FromSpecImpl<PageTableEntryFlags> for AccessFlags {
    open spec fn obeys_from_spec() -> bool {
        true
    }

    open spec fn from_spec(flags: PageTableEntryFlags) -> Self {
        access_of(flags.bits)
    }
}

/// Turning an access into page table flags and back gives the same access.
pub proof fn lemma_access_round_trip(a: AccessFlags)
    ensures
        access_of(access_bits(a)) == a,
{
    assert((0x8000_0000_0000_0000u64 & (2u64 | 0x8000_0000_0000_0000u64)) != (2u64 | 0x8000_0000_0000_0000u64)
        && (0x8000_0000_0000_0000u64 & 2u64) != 2u64 && (0x8000_0000_0000_0000u64 & 0x8000_0000_0000_0000u64)
        == 0x8000_0000_0000_0000u64 && ((2u64 | 0x8000_0000_0000_0000u64) & (2u64 | 0x8000_0000_0000_0000u64))
        == (2u64 | 0x8000_0000_0000_0000u64) && (0u64 & (2u64 | 0x8000_0000_0000_0000u64)) != (2u64
        | 0x8000_0000_0000_0000u64) && (0u64 & 2u64) != 2u64 && (0u64 & 0x8000_0000_0000_0000u64)
        != 0x8000_0000_0000_0000u64 && (2u64 & (2u64 | 0x8000_0000_0000_0000u64)) != (2u64
        | 0x8000_0000_0000_0000u64) && (2u64 & 2u64) == 2u64) by (bit_vector);
}

/// What a region of the address space is used for.
#[derive(Clone, Copy, Debug, PartialEq, Eq, Structural)]
pub enum RegionType {
    Stack,
    Heap,
    Elf,
    Other,
}

impl Default for RegionType {
    fn default() -> (r: Self)
        ensures
            r == RegionType::Other,
    {
        RegionType::Other
    }
}

/// Where in a region a range is placed.
pub enum PlacingStrategy {
    Anywhere,
}

/// The names in a list of named ranges.
pub open spec fn names(s: Seq<(String, PageRangeInclusive<Size4KiB>)>) -> Seq<Seq<char>> {
    s.map_values(|e: (String, PageRangeInclusive<Size4KiB>)| e.0@)
}

/// The range of each name in a list of named ranges whose names differ.
pub open spec fn named_map(s: Seq<(String, PageRangeInclusive<Size4KiB>)>) -> Map<Seq<char>, PageRangeInclusive<Size4KiB>> {
    Map::new(
        |k: Seq<char>| names(s).contains(k),
        |k: Seq<char>| s[names(s).index_of(k)].1,
    )
}

/// Ranges allocated in a region, by name.
pub struct Subregions {
    entries: Vec<(String, PageRangeInclusive<Size4KiB>)>,
}

impl View for Subregions {
    type V = Map<Seq<char>, PageRangeInclusive<Size4KiB>>;

    closed spec fn view(&self) -> Map<Seq<char>, PageRangeInclusive<Size4KiB>> {
        named_map(self.entries@)
    }
}

impl Subregions {
    /// No name occurs twice.
    pub closed spec fn wf(&self) -> bool {
        names(self.entries@).no_duplicates()
    }

    pub fn new() -> (r: Self)
        ensures
            r.wf(),
            r@ == Map::<Seq<char>, PageRangeInclusive<Size4KiB>>::empty(),
    {
        let r = Subregions { entries: Vec::new() };
        assert(names(r.entries@) =~= Seq::<Seq<char>>::empty());
        assert(r@ =~= Map::<Seq<char>, PageRangeInclusive<Size4KiB>>::empty());
        r
    }

    /// Index of the entry named `name`.
    fn find(&self, name: &String) -> (r: Option<usize>)
        requires
            self.wf(),
        ensures
            r is None ==> !names(self.entries@).contains(name@),
            r matches Some(i) ==> i < self.entries@.len() && names(self.entries@)[i as int] == name@
                && names(self.entries@).index_of(name@) == i,
    {
        let mut i: usize = 0;
        while i < self.entries.len()
            invariant
                i <= self.entries@.len(),
                self.wf(),
                forall|j: int| 0 <= j < i ==> names(self.entries@)[j] != name@,
            decreases self.entries@.len() - i,
        {
            if self.entries[i].0 == *name {
                proof {
                    let n = names(self.entries@);
                    assert(n[i as int] == name@);
                    assert(n.contains(name@));
                    let k = n.index_of(name@);
                    assert(n[k] == name@);
                    assert(k == i as int) by {
                        if k != i as int {
                            self.lemma_wf_unique(k, i as int);
                        }
                    }
                }
                return Some(i);
            }
            i = i + 1;
        }
        proof {
            let n = names(self.entries@);
            if n.contains(name@) {
                let k = choose|k: int| 0 <= k < n.len() && n[k] == name@;
                assert(n[k] == name@);
            }
        }
        None
    }

    proof fn lemma_wf_unique(&self, a: int, b: int)
        requires
            self.wf(),
            0 <= a < self.entries@.len(),
            0 <= b < self.entries@.len(),
            a != b,
        ensures
            names(self.entries@)[a] != names(self.entries@)[b],
    {
    }

    /// Sets the range of `name`, replacing the one it had.
    pub fn insert(&mut self, name: String, range: PageRangeInclusive<Size4KiB>)
        requires
            old(self).wf(),
        ensures
            final(self).wf(),
            final(self)@ == old(self)@.insert(name@, range),
    {
        let ghost key = name@;
        match self.find(&name) {
            Some(i) => {
                let ghost old_entries = self.entries@;
                self.entries.set(i, (name, range));
                proof {
                    let n0 = names(old_entries);
                    let n1 = names(self.entries@);
                    assert(n1 =~= n0);
                    assert forall|k: Seq<char>| #[trigger] n1.contains(k) implies self@[k] == old(self)@.insert(key, range)[k] by {
                        let j = n1.index_of(k);
                        assert(n1[j] == k);
                    }
                    assert(self@ =~= old(self)@.insert(key, range));
                }
            },
            None => {
                let ghost old_entries = self.entries@;
                self.entries.push((name, range));
                proof {
                    let n0 = names(old_entries);
                    let n1 = names(self.entries@);
                    assert(n1 =~= n0.push(key));
                    assert(n1.no_duplicates()) by {
                        assert forall|a: int, b: int| 0 <= a < b < n1.len() implies n1[a] != n1[b] by {
                            if b == n0.len() {
                                assert(n0[a] != key) by {
                                    if n0[a] == key {
                                        assert(n0.contains(key));
                                    }
                                }
                            }
                        }
                    }
                    assert forall|k: Seq<char>| #[trigger] n1.contains(k) implies self@[k] == old(self)@.insert(key, range)[k] by {
                        let j = n1.index_of(k);
                        assert(n1[j] == k);
                        if k != key {
                            let j0 = n0.index_of(k);
                            assert(n0.contains(k)) by {
                                assert(n1[j] == k && j < n0.len());
                                assert(n0[j] == k);
                            }
                            assert(n0[j0] == k);
                            assert(n1[j0] == k);
                        }
                    }
                    assert forall|k: Seq<char>| #[trigger] old(self)@.insert(key, range).contains_key(k) implies n1.contains(k) by {
                        if k == key {
                            assert(n1[n0.len() as int] == key);
                        } else {
                            let j0 = n0.index_of(k);
                            assert(n1[j0] == k);
                        }
                    }
                    assert(self@ =~= old(self)@.insert(key, range));
                }
            },
        }
    }

    /// Takes the range of `name` out.
    pub fn remove(&mut self, name: &String) -> (r: Option<PageRangeInclusive<Size4KiB>>)
        requires
            old(self).wf(),
        ensures
            final(self).wf(),
            r == (if old(self)@.contains_key(name@) { Some(old(self)@[name@]) } else { None::<PageRangeInclusive<Size4KiB>> }),
            final(self)@ == old(self)@.remove(name@),
    {
        match self.find(name) {
            Some(i) => {
                let ghost old_entries = self.entries@;
                let (_, range) = self.entries.remove(i);
                proof {
                    let n0 = names(old_entries);
                    let n1 = names(self.entries@);
                    assert(n1 =~= n0.remove(i as int));
                    assert(n1.no_duplicates()) by {
                        assert forall|a: int, b: int| 0 <= a < b < n1.len() implies n1[a] != n1[b] by {
                            let a0 = if a < i { a } else { a + 1 };
                            let b0 = if b < i { b } else { b + 1 };
                            assert(n1[a] == n0[a0] && n1[b] == n0[b0]);
                        }
                    }
                    assert forall|k: Seq<char>| #[trigger] n1.contains(k) implies old(self)@.remove(name@).contains_key(k) && self@[k] == old(self)@[k] by {
                        let j = n1.index_of(k);
                        let j0 = if j < i { j } else { j + 1 };
                        assert(n0[j0] == k);
                        assert(n0.contains(k));
                        let m = n0.index_of(k);
                        assert(m == j0) by {
                            if m != j0 {
                                assert(n0[m] == n0[j0]);
                            }
                        }
                        assert(k != name@) by {
                            if k == name@ {
                                assert(n0[i as int] == n0[j0]);
                            }
                        }
                    }
                    assert forall|k: Seq<char>| #[trigger] old(self)@.remove(name@).contains_key(k) implies n1.contains(k) by {
                        let m = n0.index_of(k);
                        assert(n0[m] == k);
                        assert(m != i as int);
                        let j = if m < i { m } else { m - 1 };
                        assert(n1[j] == k);
                    }
                    assert(self@ =~= old(self)@.remove(name@));
                }
                Some(range)
            },
            None => {
                proof {
                    assert(old(self)@.remove(name@) =~= old(self)@);
                }
                None
            },
        }
    }
}

/// A region of the address space: the allocator of its addresses, the
/// ranges allocated in it by name, and what it is used for.
pub struct RegionInfo {
    pub allocator: RangeAllocator,
    pub subregions: Subregions,
    pub typ: RegionType,
}

/// The addresses a page range covers.
pub open spec fn addresses(range: PageRangeInclusive<Size4KiB>) -> Range<u64> {
    Range { start: range.start_spec() as u64, end: range.end_spec() as u64 }
}

/// The pages of an address range with `range.start < range.end`.
pub open spec fn pages_of(range: Range<u64>) -> (u64, u64) {
    ((range.start - range.start % 0x1000) as u64, ((range.end - 1) - (range.end - 1) % 0x1000) as u64)
}

impl RegionInfo {
    pub fn new(typ: RegionType, range: PageRangeInclusive<Size4KiB>) -> (r: Self)
        requires
            range.end_fits(),
        ensures
            r.typ == typ,
            r.allocator.total() == addresses(range),
            r.allocator.allocated() == Map::<u64, Range<u64>>::empty(),
            r.subregions.wf(),
            r.subregions@ == Map::<Seq<char>, PageRangeInclusive<Size4KiB>>::empty(),
    {
        Self { allocator: RangeAllocator::new(range.into_range()), subregions: Subregions::new(), typ }
    }
}

/// Two regions hold the same: type, address range, allocations and names.
pub open spec fn same_region(a: RegionInfo, b: RegionInfo) -> bool {
    &&& a.typ == b.typ
    &&& a.allocator.total() == b.allocator.total()
    &&& a.allocator.allocated() == b.allocator.allocated()
    &&& a.subregions@ == b.subregions@
}

/// Two lists of regions hold the same.
pub open spec fn same_regions(a: Seq<RegionInfo>, b: Seq<RegionInfo>) -> bool {
    &&& a.len() == b.len()
    &&& forall|j: int| 0 <= j < a.len() ==> same_region(#[trigger] a[j], b[j])
}

proof fn lemma_same_regions_refl(a: Seq<RegionInfo>)
    ensures
        same_regions(a, a),
{
    assert forall|j: int| 0 <= j < a.len() implies same_region(#[trigger] a[j], a[j]) by {
    }
}

/// Index of the first region of type `typ` (the length if there is none).
pub open spec fn first_index(types: Seq<RegionType>, typ: RegionType) -> int
    decreases types.len(),
{
    if types.len() == 0 {
        0
    } else if types[0] == typ {
        0
    } else {
        1 + first_index(types.drop_first(), typ)
    }
}

/// `first_index` finds the first region of the type, if there is one.
pub proof fn lemma_first_index(types: Seq<RegionType>, typ: RegionType)
    ensures
        0 <= first_index(types, typ) <= types.len(),
        first_index(types, typ) < types.len() ==> types[first_index(types, typ)] == typ,
        forall|j: int| 0 <= j < first_index(types, typ) ==> types[j] != typ,
    decreases types.len(),
{
    if types.len() > 0 && types[0] != typ {
        lemma_first_index(types.drop_first(), typ);
        assert forall|j: int| 0 <= j < first_index(types, typ) implies types[j] != typ by {
            if j > 0 {
                assert(types[j] == types.drop_first()[j - 1]);
            }
        }
    }
}

/// The types of `regions`.
pub open spec fn types_of(regions: Seq<RegionInfo>) -> Seq<RegionType> {
    regions.map_values(|r: RegionInfo| r.typ)
}

/// What allocating the range `range` under `name` in the first region of
/// type `typ` does: the regions `before` become `after` and `r` comes back.
/// `Other` if there is no such region, `InvalidRange` if the range is not
/// free in it; otherwise the range is recorded under `name` in that region.
pub open spec fn range_allocation(
    before: Seq<RegionInfo>,
    after: Seq<RegionInfo>,
    name: Seq<char>,
    typ: RegionType,
    range: PageRangeInclusive<Size4KiB>,
    r: Result<(), MemoryError>,
) -> bool {
    let i = first_index(types_of(before), typ);
    let n = before.len() as int;
    &&& after.len() == before.len()
    &&& i == n ==> r == Err::<(), MemoryError>(MemoryError::Other) && same_regions(after, before)
    &&& i < n ==> {
        let info = before[i];
        let free = range_free(info.allocator.allocated(), info.allocator.total(), addresses(range));
        &&& !free ==> r == Err::<(), MemoryError>(MemoryError::InvalidRange) && same_regions(after, before)
        &&& free ==> r == Ok::<(), MemoryError>(()) && after[i].typ == typ && after[i].allocator.total()
            == info.allocator.total() && after[i].allocator.allocated() == info.allocator.allocated().insert(
            range.start_spec() as u64,
            addresses(range),
        ) && after[i].subregions@ == info.subregions@.insert(name, range) && forall|j: int|
            0 <= j < n && j != i ==> same_region(#[trigger] after[j], before[j])
    }
}

/// What allocating `size` bytes under `name` in the first region of type
/// `typ` does: the regions `before` become `after` and `r` comes back.
/// `InvalidSize` for an empty size, `Other` if there is no such region,
/// `OutOfVirtualMemory` if the region's allocator has no room; otherwise the
/// pages around the range its allocator places, recorded under `name`.
pub open spec fn size_allocation(
    before: Seq<RegionInfo>,
    after: Seq<RegionInfo>,
    name: Seq<char>,
    typ: RegionType,
    size: int,
    r: Result<PageRangeInclusive<Size4KiB>, MemoryError>,
) -> bool {
    let i = first_index(types_of(before), typ);
    let n = before.len() as int;
    &&& after.len() == n
    &&& size == 0 ==> r == Err::<PageRangeInclusive<Size4KiB>, MemoryError>(MemoryError::InvalidSize) && same_regions(after, before)
    &&& size != 0 && i == n ==> r == Err::<PageRangeInclusive<Size4KiB>, MemoryError>(MemoryError::Other) && same_regions(after, before)
    &&& size != 0 && i < n ==> {
        let info = before[i];
        exists|x: Option<Range<u64>>| #[trigger] allocates_size(info.allocator.allocated(), info.allocator.total(), size, x) && {
            &&& x is None ==> r == Err::<PageRangeInclusive<Size4KiB>, MemoryError>(MemoryError::OutOfVirtualMemory)
                && same_regions(after, before)
            &&& x matches Some(a) ==> r matches Ok(pr) && pr.start_page.address.0 == pages_of(a).0
                && pr.end_page.address.0 == pages_of(a).1
                && after[i].typ == typ
                && after[i].allocator.total() == info.allocator.total()
                && after[i].allocator.allocated() == info.allocator.allocated().insert(a.start, a)
                && after[i].subregions@ == info.subregions@.insert(name, pr)
                && forall|j: int| 0 <= j < n && j != i ==> same_region(#[trigger] after[j], before[j])
        }
    }
}

/// In every region the ranges handed out lie within the region and no two
/// of them overlap.
pub open spec fn regions_disjoint(regions: Seq<RegionInfo>) -> bool {
    forall|j: int|
        #![trigger regions[j]]
        0 <= j < regions.len() ==> disjoint_ranges(regions[j].allocator.allocated(), regions[j].allocator.total())
}

/// `after` is `before` with one more range handed out: a non-empty range
/// within the region that overlaps none of the ranges handed out before.
pub open spec fn takes_free_range(before: RegionInfo, after: RegionInfo) -> bool {
    exists|a: Range<u64>|
        #![trigger range_free(before.allocator.allocated(), before.allocator.total(), a)]
        {
            &&& a.start < a.end
            &&& range_free(before.allocator.allocated(), before.allocator.total(), a)
            &&& after.allocator.allocated() == before.allocator.allocated().insert(a.start, a)
        }
}

/// Changing one region `i` of a list, and leaving the others as they were,
/// keeps the ranges disjoint if they stay disjoint in region `i`.
proof fn lemma_disjoint_step(before: Seq<RegionInfo>, after: Seq<RegionInfo>, i: int)
    requires
        regions_disjoint(before),
        after.len() == before.len(),
        0 <= i < before.len() ==> disjoint_ranges(after[i].allocator.allocated(), after[i].allocator.total()),
        forall|j: int| 0 <= j < before.len() && j != i ==> same_region(#[trigger] after[j], before[j]),
    ensures
        regions_disjoint(after),
{
    assert forall|j: int| 0 <= j < after.len() implies disjoint_ranges(
        (#[trigger] after[j]).allocator.allocated(),
        after[j].allocator.total(),
    ) by {
        if j != i {
            assert(same_region(after[j], before[j]));
        }
    }
}

/// The regions of an address space.
pub struct RegionTree {
    regions: Vec<RegionInfo>,
}

impl RegionTree {
    /// The regions, in the order they were added.
    pub closed spec fn regions(&self) -> Seq<RegionInfo> {
        self.regions@
    }

    /// The types of the regions.
    pub open spec fn types(&self) -> Seq<RegionType> {
        types_of(self.regions())
    }

    /// In every region the ranges handed out are disjoint.
    pub open spec fn ranges_disjoint(&self) -> bool {
        regions_disjoint(self.regions())
    }

    /// Every region's table of names is well formed.
    pub open spec fn wf(&self) -> bool {
        forall|i: int| 0 <= i < self.regions().len() ==> (#[trigger] self.regions()[i]).subregions.wf()
    }

    pub fn new() -> (r: Self)
        ensures
            r.wf(),
            r.ranges_disjoint(),
            r.regions() == Seq::<RegionInfo>::empty(),
    {
        Self { regions: Vec::new() }
    }

    /// Adds a region of type `typ` covering `range`.
    pub fn add_region(&mut self, typ: RegionType, range: PageRangeInclusive<Size4KiB>)
        requires
            old(self).wf(),
            range.end_fits(),
        ensures
            final(self).wf(),
            old(self).ranges_disjoint() ==> final(self).ranges_disjoint(),
            final(self).regions().len() == old(self).regions().len() + 1,
            final(self).regions().take(old(self).regions().len() as int) == old(self).regions(),
            ({
                let r = final(self).regions().last();
                &&& r.typ == typ
                &&& r.allocator.total() == addresses(range)
                &&& r.allocator.allocated() == Map::<u64, Range<u64>>::empty()
                &&& r.subregions@ == Map::<Seq<char>, PageRangeInclusive<Size4KiB>>::empty()
            }),
    {
        let info = RegionInfo::new(typ, range);
        self.regions.push(info);
        proof {
            assert(self.regions@.take(old(self).regions@.len() as int) =~= old(self).regions@);
            crate::range_allocator::lemma_empty_disjoint(addresses(range));
            if old(self).ranges_disjoint() {
                assert forall|j: int| 0 <= j < self.regions().len() implies disjoint_ranges(
                    (#[trigger] self.regions()[j]).allocator.allocated(),
                    self.regions()[j].allocator.total(),
                ) by {
                    if j < old(self).regions().len() {
                        assert(self.regions()[j] == old(self).regions()[j]);
                    }
                }
            }
        }
    }

    /// Index of the first region of type `typ`.
    fn find(&self, typ: RegionType) -> (r: Option<usize>)
        ensures
            r is None ==> first_index(self.types(), typ) == self.regions().len(),
            r matches Some(i) ==> i == first_index(self.types(), typ) && i < self.regions().len()
                && self.regions()[i as int].typ == typ,
    {
        proof {
            lemma_first_index(self.types(), typ);
        }
        let mut i: usize = 0;
        while i < self.regions.len()
            invariant
                i <= self.regions@.len(),
                forall|j: int| 0 <= j < i ==> self.types()[j] != typ,
                0 <= first_index(self.types(), typ) <= self.types().len(),
                first_index(self.types(), typ) < self.types().len() ==> self.types()[first_index(self.types(), typ)] == typ,
                forall|j: int| 0 <= j < first_index(self.types(), typ) ==> self.types()[j] != typ,
            decreases self.regions@.len() - i,
        {
            if self.regions[i].typ == typ {
                proof {
                    assert(self.types()[i as int] == typ);
                }
                return Some(i);
            }
            assert(self.types()[i as int] != typ);
            i = i + 1;
        }
        None
    }

    /// Allocates `range` under `name` in the first region of type `typ`:
    /// `Other` if there is no such region, `InvalidRange` if the range is not
    /// free in it.
    pub fn try_allocate_range_in_region(&mut self, name: String, typ: RegionType, range: PageRangeInclusive<Size4KiB>) -> (r: Result<(), MemoryError>)
        requires
            old(self).wf(),
            range.end_fits(),
        ensures
            final(self).wf(),
            final(self).regions().len() == old(self).regions().len(),
            old(self).ranges_disjoint() && range.start_spec() <= range.end_spec() ==> final(self).ranges_disjoint(),
            ({
                let i = first_index(old(self).types(), typ);
                let n = old(self).regions().len() as int;
                &&& i == n ==> r == Err::<(), MemoryError>(MemoryError::Other) && same_regions(final(self).regions(), old(self).regions())
                &&& i < n ==> {
                    let info = old(self).regions()[i];
                    let free = range_free(info.allocator.allocated(), info.allocator.total(), addresses(range));
                    &&& !free ==> r == Err::<(), MemoryError>(MemoryError::InvalidRange)
                        && same_regions(final(self).regions(), old(self).regions())
                    &&& free ==> r == Ok::<(), MemoryError>(())
                        && final(self).regions()[i].typ == typ
                        && final(self).regions()[i].allocator.total() == info.allocator.total()
                        && final(self).regions()[i].allocator.allocated() == info.allocator.allocated().insert(range.start_spec() as u64, addresses(range))
                        && final(self).regions()[i].subregions@ == info.subregions@.insert(name@, range)
                        && forall|j: int| 0 <= j < n && j != i ==> same_region(#[trigger] final(self).regions()[j], old(self).regions()[j])
                }
            }),
    {
        match self.find(typ) {
            None => {
                proof {
                    lemma_same_regions_refl(self.regions());
                }
                Err(MemoryError::Other)
            },
            Some(i) => {
                let mut info = self.regions.remove(i);
                let ghost before = info;
                let res = info.allocator.try_allocate_range(range.into_range());
                if !res {
                    self.regions.insert(i, info);
                    proof {
                        assert(same_regions(self.regions(), old(self).regions())) by {
                            assert forall|j: int| 0 <= j < self.regions@.len() implies same_region(#[trigger] self.regions()[j], old(self).regions()[j]) by {
                                if j != i {
                                    assert(self.regions@[j] == old(self).regions@[j]);
                                }
                            }
                        }
                        assert forall|j: int| 0 <= j < self.regions@.len() implies (#[trigger] self.regions()[j]).subregions.wf() by {
                            if j != i {
                                assert(self.regions@[j] == old(self).regions@[j]);
                            }
                        }
                        if old(self).ranges_disjoint() {
                            lemma_disjoint_step(old(self).regions(), self.regions(), -1);
                        }
                    }
                    Err(MemoryError::InvalidRange)
                } else {
                    info.subregions.insert(name, range);
                    self.regions.insert(i, info);
                    proof {
                        assert forall|j: int| 0 <= j < self.regions@.len() implies (#[trigger] self.regions()[j]).subregions.wf() by {
                            if j != i {
                                assert(self.regions@[j] == old(self).regions@[j]);
                            }
                        }
                        assert forall|j: int| 0 <= j < self.regions@.len() && j != i implies same_region(#[trigger] self.regions()[j], old(self).regions()[j]) by {
                            assert(self.regions@[j] == old(self).regions@[j]);
                        }
                        if old(self).ranges_disjoint() && range.start_spec() <= range.end_spec() {
                            assert(before == old(self).regions()[i as int]);
                            assert(disjoint_ranges(before.allocator.allocated(), before.allocator.total()));
                            lemma_allocate_keeps_disjoint(before.allocator.allocated(), before.allocator.total(), addresses(range));
                            lemma_disjoint_step(old(self).regions(), self.regions(), i as int);
                        }
                    }
                    Ok(())
                }
            },
        }
    }

    /// Allocates `size` bytes under `name` in the first region of type
    /// `typ`, as the region's allocator places them: `InvalidSize` for an
    /// empty size, `Other` if there is no such region, `OutOfVirtualMemory`
    /// if the allocator has no room.
    pub fn try_allocate_size_in_region(&mut self, name: String, typ: RegionType, size: PageAlignedSize, strategy: PlacingStrategy) -> (r: Result<PageRangeInclusive<Size4KiB>, MemoryError>)
        requires
            old(self).wf(),
        ensures
            final(self).wf(),
            size_allocation(old(self).regions(), final(self).regions(), name@, typ, size.0 as int, r),
            r matches Ok(pr) ==> pr.start_page.address.0 % 0x1000 == 0 && pr.end_page.address.0 % 0x1000 == 0,
            old(self).ranges_disjoint() ==> final(self).ranges_disjoint(),
            old(self).ranges_disjoint() && r is Ok ==> takes_free_range(
                old(self).regions()[first_index(old(self).types(), typ)],
                final(self).regions()[first_index(old(self).types(), typ)],
            ),
    {
        if size.in_bytes() == 0 {
            return Err(MemoryError::InvalidSize);
        }
        match self.find(typ) {
            None => {
                proof {
                    lemma_same_regions_refl(self.regions());
                }
                Err(MemoryError::Other)
            },
            Some(i) => {
                let mut info = self.regions.remove(i);
                let ghost before = info;
                let res = info.allocator.try_allocate_size(size.in_bytes());
                match res {
                    None => {
                        self.regions.insert(i, info);
                        proof {
                            assert(same_regions(self.regions(), old(self).regions())) by {
                                assert forall|j: int| 0 <= j < self.regions@.len() implies same_region(#[trigger] self.regions()[j], old(self).regions()[j]) by {
                                    if j != i {
                                        assert(self.regions@[j] == old(self).regions@[j]);
                                    }
                                }
                            }
                            assert forall|j: int| 0 <= j < self.regions@.len() implies (#[trigger] self.regions()[j]).subregions.wf() by {
                                if j != i {
                                    assert(self.regions@[j] == old(self).regions@[j]);
                                }
                            }
                            if old(self).ranges_disjoint() {
                                lemma_disjoint_step(old(self).regions(), self.regions(), -1);
                            }
                        }
                        Err(MemoryError::OutOfVirtualMemory)
                    },
                    Some(x) => {
                        proof {
                            crate::range_allocator::lemma_allocated_range(before.allocator.allocated(), before.allocator.total(), size.0 as int, res);
                        }
                        let range = PageRangeInclusive::new(
                            Page::<Size4KiB>::containing_address(VirtualAddress::new(x.start)),
                            Page::<Size4KiB>::containing_address(VirtualAddress::new(x.end - 1)),
                        );
                        info.subregions.insert(name, range);
                        self.regions.insert(i, info);
                        proof {
                            assert forall|j: int| 0 <= j < self.regions@.len() implies (#[trigger] self.regions()[j]).subregions.wf() by {
                                if j != i {
                                    assert(self.regions@[j] == old(self).regions@[j]);
                                }
                            }
                            assert forall|j: int| 0 <= j < self.regions@.len() && j != i implies same_region(#[trigger] self.regions()[j], old(self).regions()[j]) by {
                                assert(self.regions@[j] == old(self).regions@[j]);
                            }
                            if old(self).ranges_disjoint() {
                                assert(before == old(self).regions()[i as int]);
                                assert(disjoint_ranges(before.allocator.allocated(), before.allocator.total()));
                                lemma_allocate_keeps_disjoint(before.allocator.allocated(), before.allocator.total(), x);
                                lemma_disjoint_step(old(self).regions(), self.regions(), i as int);
                                assert(range_free(before.allocator.allocated(), before.allocator.total(), x));
                            }
                        }
                        Ok(range)
                    },
                }
            },
        }
    }

    /// Frees the range named `name` in the first region of type `typ`:
    /// `InvalidRegion` if there is no such region or no such name in it.
    pub fn try_deallocate_from_region(&mut self, typ: RegionType, name: &String) -> (r: Result<PageRangeInclusive<Size4KiB>, MemoryError>)
        requires
            old(self).wf(),
            forall|i: int, k: Seq<char>| 0 <= i < old(self).regions().len() && #[trigger] old(self).regions()[i].subregions@.contains_key(k)
                ==> old(self).regions()[i].subregions@[k].end_fits(),
        ensures
            final(self).wf(),
            final(self).regions().len() == old(self).regions().len(),
            old(self).ranges_disjoint() ==> final(self).ranges_disjoint(),
            ({
                let i = first_index(old(self).types(), typ);
                let n = old(self).regions().len() as int;
                &&& (i == n || !old(self).regions()[i].subregions@.contains_key(name@)) ==> r
                    == Err::<PageRangeInclusive<Size4KiB>, MemoryError>(MemoryError::InvalidRegion) && same_regions(final(self).regions(), old(self).regions())
                &&& (i < n && old(self).regions()[i].subregions@.contains_key(name@)) ==> {
                    let info = old(self).regions()[i];
                    let range = info.subregions@[name@];
                    let a = addresses(range);
                    &&& r == Ok::<PageRangeInclusive<Size4KiB>, MemoryError>(range)
                    &&& final(self).regions()[i].typ == typ
                    &&& final(self).regions()[i].allocator.total() == info.allocator.total()
                    &&& final(self).regions()[i].allocator.allocated() == (if info.allocator.allocated().contains_key(a.start) && info.allocator.allocated()[a.start] == a {
                        info.allocator.allocated().remove(a.start)
                    } else {
                        info.allocator.allocated()
                    })
                    &&& final(self).regions()[i].subregions@ == info.subregions@.remove(name@)
                    &&& forall|j: int| 0 <= j < n && j != i ==> same_region(#[trigger] final(self).regions()[j], old(self).regions()[j])
                }
            }),
    {
        match self.find(typ) {
            None => {
                proof {
                    lemma_same_regions_refl(self.regions());
                }
                Err(MemoryError::InvalidRegion)
            },
            Some(i) => {
                let mut info = self.regions.remove(i);
                let ghost before = info;
                match info.subregions.remove(name) {
                    None => {
                        proof {
                            assert(before.subregions@.remove(name@) =~= before.subregions@);
                        }
                        self.regions.insert(i, info);
                        proof {
                            assert(same_regions(self.regions(), old(self).regions())) by {
                                assert forall|j: int| 0 <= j < self.regions@.len() implies same_region(#[trigger] self.regions()[j], old(self).regions()[j]) by {
                                    if j != i {
                                        assert(self.regions@[j] == old(self).regions@[j]);
                                    }
                                }
                            }
                            assert forall|j: int| 0 <= j < self.regions@.len() implies (#[trigger] self.regions()[j]).subregions.wf() by {
                                if j != i {
                                    assert(self.regions@[j] == old(self).regions@[j]);
                                }
                            }
                            if old(self).ranges_disjoint() {
                                lemma_disjoint_step(old(self).regions(), self.regions(), -1);
                            }
                        }
                        Err(MemoryError::InvalidRegion)
                    },
                    Some(range) => {
                        proof {
                            assert(old(self).regions()[i as int] == before);
                            assert(before.subregions@.contains_key(name@));
                        }
                        info.allocator.deallocate_range(range.into_range());
                        self.regions.insert(i, info);
                        proof {
                            assert forall|j: int| 0 <= j < self.regions@.len() implies (#[trigger] self.regions()[j]).subregions.wf() by {
                                if j != i {
                                    assert(self.regions@[j] == old(self).regions@[j]);
                                }
                            }
                            assert forall|j: int| 0 <= j < self.regions@.len() && j != i implies same_region(#[trigger] self.regions()[j], old(self).regions()[j]) by {
                                assert(self.regions@[j] == old(self).regions@[j]);
                            }
                            if old(self).ranges_disjoint() {
                                assert(disjoint_ranges(before.allocator.allocated(), before.allocator.total()));
                                lemma_deallocate_keeps_disjoint(before.allocator.allocated(), before.allocator.total(), addresses(range).start);
                                lemma_disjoint_step(old(self).regions(), self.regions(), i as int);
                            }
                        }
                        Ok(range)
                    },
                }
            },
        }
    }
}

/// A region of an address space backed by a memory object.
pub struct VirtualMemoryRegion {
    range: PageRangeInclusive<Size4KiB>,
    name: String,
    obj: MemoryBackedVirtualMemoryObject,
    typ: RegionType,
    access_flags: AccessFlags,
}

impl VirtualMemoryRegion {
    pub closed spec fn range_spec(&self) -> PageRangeInclusive<Size4KiB> {
        self.range
    }

    pub closed spec fn name_spec(&self) -> Seq<char> {
        self.name@
    }

    pub closed spec fn typ_spec(&self) -> RegionType {
        self.typ
    }

    pub closed spec fn access_spec(&self) -> AccessFlags {
        self.access_flags
    }

    /// The frames of the memory object behind the region.
    pub closed spec fn frames_spec(&self) -> Seq<PhysicalFrame<Size4KiB>> {
        self.obj.frames_spec()
    }

    pub fn new(range: PageRangeInclusive<Size4KiB>, name: String, obj: MemoryBackedVirtualMemoryObject, typ: RegionType, access_flags: AccessFlags) -> (r: Self)
        ensures
            r.frames_spec() == obj.frames_spec(),
            r.range_spec() == range,
            r.name_spec() == name@,
            r.typ_spec() == typ,
            r.access_spec() == access_flags,
    {
        Self { range, name, obj, typ, access_flags }
    }

    /// Where the usable part of the region starts: a stack leaves its first
    /// page as a guard.
    pub fn start(&self) -> (r: VirtualAddress)
        requires
            self.range_spec().start_page.address.0 + 0x1000 <= u64::MAX,
        ensures
            self.typ_spec() == RegionType::Stack ==> r.0 == crate::memory::frame_base::<Size4KiB>((self.range_spec().start_page.address.0 + 0x1000) as u64),
            self.typ_spec() != RegionType::Stack ==> r.0 == self.range_spec().start_page.address.0,
    {
        if self.typ == RegionType::Stack {
            (self.range.start_page + 1u64).start_address()
        } else {
            self.range.start_page.start_address()
        }
    }

    /// Where the region ends.
    pub fn end(&self) -> (r: VirtualAddress)
        requires
            self.range_spec().end_fits(),
        ensures
            r.0 == self.range_spec().end_spec(),
    {
        self.range.end_page.end_address()
    }

    /// The usable size of the region: a stack's guard page does not count.
    pub fn size(&self) -> (r: usize)
        requires
            self.range_spec().end_fits(),
            self.range_spec().start_spec() + 0x1000 <= self.range_spec().end_spec(),
            self.range_spec().end_spec() - self.range_spec().start_spec() <= usize::MAX,
        ensures
            self.typ_spec() == RegionType::Stack ==> r == self.range_spec().end_spec() - self.range_spec().start_spec() - 0x1000,
            self.typ_spec() != RegionType::Stack ==> r == self.range_spec().end_spec() - self.range_spec().start_spec(),
    {
        if self.typ == RegionType::Stack {
            self.range.size() - self.range.start_page().size()
        } else {
            self.range.size()
        }
    }

    pub fn typ(&self) -> (r: RegionType)
        ensures
            r == self.typ_spec(),
    {
        self.typ
    }

    pub fn page_range(&self) -> (r: &PageRangeInclusive<Size4KiB>)
        ensures
            *r == self.range_spec(),
    {
        &self.range
    }

    /// Whether `addr` lies in one of the region's pages.
    pub fn contains(&self, addr: VirtualAddress) -> (r: bool)
        requires
            self.range_spec().end_fits(),
        ensures
            r == (self.range_spec().start_spec() <= addr.0 < self.range_spec().end_spec()),
    {
        self.range.start_address().0 <= addr.0 && addr.0 < self.range.end_address().0
    }

    pub fn access_flags(&self) -> (r: AccessFlags)
        ensures
            r == self.access_spec(),
    {
        self.access_flags
    }
}

} // verus!
