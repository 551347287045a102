//! Four-level page tables reached through a mapping of physical frames into
//! the virtual address space, and the mapper that walks and edits them.
//!
//! The page tables live in memory; here memory is modelled by the tables it
//! holds, keyed by the virtual address they are seen at. Memory that holds
//! no table reads as a table whose entries are all unused.
use vstd::prelude::*;
use std::collections::BTreeMap;
use crate::memory::{frame_base, FrameAllocator, Page, PhysicalAddress, PhysicalFrame, Size2MiB, Size4KiB, VirtualAddress};
use crate::paging::{
    entry_address, Mapper, MappingError, PageTable, Translator, PageTableEntry, PageTableEntryFlags, TlbFlusher,
    TranslationError, UnmappingError, PAGE_TABLE_ENTRY_ADDRESS_BITS, PAGE_TABLE_ENTRY_FLAG_BITS,
};

verus! {

broadcast use vstd::std_specs::btree::group_btree_axioms;

/// Where the page table held in a physical frame can be read and written.
pub trait PageTableFrameMapping {
    /// The virtual address of the frame that starts at physical address `frame`.
    spec fn virtual_of(&self, frame: u64) -> u64;

    /// The virtual address of `frame`.
    fn frame_to_virtual(&self, frame: PhysicalFrame<Size4KiB>) -> (r: VirtualAddress)
        ensures
            r.0 == self.virtual_of(frame.address.0),
    ;
}

/// The top-level table and the tables in memory.
pub type TableState = (Seq<PageTableEntry>, Map<u64, Seq<PageTableEntry>>);

/// A table whose entries are all unused.
pub open spec fn empty_entries() -> Seq<PageTableEntry> {
    Seq::new(512, |i: int| PageTableEntry(0))
}

/// The entries of the table seen at `va`.
pub open spec fn table_at(mem: Map<u64, Seq<PageTableEntry>>, va: u64) -> Seq<PageTableEntry> {
    if mem.contains_key(va) {
        mem[va]
    } else {
        empty_entries()
    }
}

/// Entry `i` of the top-level table (`parent` is `None`) or of the table at `parent`.
pub open spec fn entry_at(st: TableState, parent: Option<u64>, i: int) -> PageTableEntry {
    match parent {
        None => st.0[i],
        Some(va) => table_at(st.1, va)[i],
    }
}

/// The tables after entry `i` of the top-level table or of the table at `parent` is set to `e`.
pub open spec fn with_entry(st: TableState, parent: Option<u64>, i: int, e: PageTableEntry) -> TableState {
    match parent {
        None => (st.0.update(i, e), st.1),
        Some(va) => (st.0, st.1.insert(va, table_at(st.1, va).update(i, e))),
    }
}

/// The virtual address of the table an entry points to.
pub open spec fn child<P: PageTableFrameMapping>(m: P, e: PageTableEntry) -> u64 {
    m.virtual_of(entry_address(e.0))
}

/// Index of an address into the level 4, 3, 2 and 1 tables.
pub open spec fn l4(a: u64) -> int {
    ((a >> 39u64) & 0x1ff) as int
}

pub open spec fn l3(a: u64) -> int {
    ((a >> 30u64) & 0x1ff) as int
}

pub open spec fn l2(a: u64) -> int {
    ((a >> 21u64) & 0x1ff) as int
}

pub open spec fn l1(a: u64) -> int {
    ((a >> 12u64) & 0x1ff) as int
}

/// Flags given to the entries that lead to a mapped page: present,
/// writable, accessible from ring 3.
pub const PARENT_FLAGS: u64 = 0x7;

/// One step down for a mapping: the table entry `i` of `parent` leads to,
/// with the tables after the step. An unused entry gets a new empty table in
/// the frame the allocator gave (`alloc`; `None` if it gave none, and the
/// step fails); a used entry gets the missing `flags` added.
pub open spec fn descend<P: PageTableFrameMapping>(
    m: P,
    st: TableState,
    parent: Option<u64>,
    i: int,
    flags: u64,
    alloc: Option<u64>,
) -> Option<(TableState, u64)> {
    let e = entry_at(st, parent, i);
    if e.0 == 0 {
        match alloc {
            None => None,
            Some(fa) => {
                let s = with_entry(st, parent, i, PageTableEntry(fa | flags));
                Some(((s.0, s.1.insert(m.virtual_of(fa), empty_entries())), m.virtual_of(fa)))
            },
        }
    } else if flags != 0 && (e.0 & PAGE_TABLE_ENTRY_FLAG_BITS) & flags != flags {
        let e2 = PageTableEntry(e.0 | flags);
        Some((with_entry(st, parent, i, e2), child(m, e2)))
    } else {
        Some((st, child(m, e)))
    }
}

/// Mapping the 4 KiB page at `page` to `frame` with `flags`, given what the
/// frame allocator hands out at each level where a table is missing: the
/// tables afterwards, and the outcome.
pub open spec fn map_4k<P: PageTableFrameMapping>(
    m: P,
    st: TableState,
    page: u64,
    frame: u64,
    flags: u64,
    a: (Option<u64>, Option<u64>, Option<u64>),
) -> (TableState, Result<(), MappingError>) {
    match descend(m, st, None, l4(page), PARENT_FLAGS, a.0) {
        None => (st, Err(MappingError::FrameAllocationFailed)),
        Some((s1, v3)) => match descend(m, s1, Some(v3), l3(page), PARENT_FLAGS, a.1) {
            None => (s1, Err(MappingError::FrameAllocationFailed)),
            Some((s2, v2)) => match descend(m, s2, Some(v2), l2(page), PARENT_FLAGS, a.2) {
                None => (s2, Err(MappingError::FrameAllocationFailed)),
                Some((s3, v1)) => if entry_at(s3, Some(v1), l1(page)).0 & 1 != 0 {
                    (s3, Err(MappingError::PageAlreadyMapped))
                } else {
                    (with_entry(s3, Some(v1), l1(page), PageTableEntry(frame | flags)), Ok(()))
                },
            },
        },
    }
}

/// The level 1 table of the 4 KiB page at `page`, if the walk gets there.
pub open spec fn leaf_table<P: PageTableFrameMapping>(m: P, st: TableState, page: u64) -> Option<u64> {
    let e4 = st.0[l4(page)];
    if e4.0 == 0 {
        None
    } else {
        let e3 = table_at(st.1, child(m, e4))[l3(page)];
        if e3.0 == 0 {
            None
        } else {
            let e2 = table_at(st.1, child(m, e3))[l2(page)];
            if e2.0 == 0 {
                None
            } else {
                Some(child(m, e2))
            }
        }
    }
}

/// The frame and the flags the 4 KiB page at `page` is mapped to, if it is.
pub open spec fn translate_4k<P: PageTableFrameMapping>(m: P, st: TableState, page: u64) -> Option<(u64, u64)> {
    match leaf_table(m, st, page) {
        None => None,
        Some(v1) => {
            let e1 = table_at(st.1, v1)[l1(page)];
            if e1.0 & 1 != 0 {
                Some((entry_address(e1.0), e1.0 & PAGE_TABLE_ENTRY_FLAG_BITS))
            } else {
                None
            }
        },
    }
}

/// Mapping `pages[i]` to `frames[i]` with `flags` for each `i` in turn, each
/// mapping taking the frames `allocs[i]` for missing tables; the first
/// mapping that fails ends the sequence. The resulting tables and the result
/// of the last mapping made.
pub open spec fn map_each<P: PageTableFrameMapping>(
    m: P,
    st: TableState,
    pages: Seq<u64>,
    frames: Seq<u64>,
    flags: u64,
    allocs: Seq<(Option<u64>, Option<u64>, Option<u64>)>,
) -> (TableState, Result<(), MappingError>)
    decreases pages.len(),
{
    if pages.len() == 0 {
        (st, Ok(()))
    } else {
        let (s, res) = map_each(m, st, pages.drop_last(), frames.drop_last(), flags, allocs.drop_last());
        if res is Err {
            (s, res)
        } else {
            map_4k(m, s, pages.last(), frames.last(), flags, allocs.last())
        }
    }
}

/// Unmapping the 4 KiB page at `page`, whose level 1 table the walk reaches.
pub open spec fn unmap_4k<P: PageTableFrameMapping>(m: P, st: TableState, page: u64) -> (TableState, Result<(), UnmappingError>) {
    let v1 = leaf_table(m, st, page)->0;
    let e1 = table_at(st.1, v1)[l1(page)];
    if (e1.0 & PAGE_TABLE_ENTRY_FLAG_BITS) & 1 == 0 {
        (st, Err(UnmappingError::PageNotMapped))
    } else {
        (with_entry(st, Some(v1), l1(page), PageTableEntry(0)), Ok(()))
    }
}

/// Flag of a level 2 entry that maps a 2 MiB page directly.
pub const HUGE_PAGE: u64 = 0x80;

/// Mapping the 2 MiB page at `page` to `frame` with `flags`, given what the
/// frame allocator hands out at each level where a table is missing.
pub open spec fn map_2m<P: PageTableFrameMapping>(
    m: P,
    st: TableState,
    page: u64,
    frame: u64,
    flags: u64,
    a: (Option<u64>, Option<u64>),
) -> (TableState, Result<(), MappingError>) {
    match descend(m, st, None, l4(page), PARENT_FLAGS, a.0) {
        None => (st, Err(MappingError::FrameAllocationFailed)),
        Some((s1, v3)) => match descend(m, s1, Some(v3), l3(page), PARENT_FLAGS, a.1) {
            None => (s1, Err(MappingError::FrameAllocationFailed)),
            Some((s2, v2)) => if entry_at(s2, Some(v2), l2(page)).0 & 1 != 0 {
                (s2, Err(MappingError::PageAlreadyMapped))
            } else {
                (with_entry(s2, Some(v2), l2(page), PageTableEntry(frame | (flags | HUGE_PAGE))), Ok(()))
            },
        },
    }
}

/// The level 2 table of the page at `page`, if the walk gets there.
pub open spec fn level2_table<P: PageTableFrameMapping>(m: P, st: TableState, page: u64) -> Option<u64> {
    let e4 = st.0[l4(page)];
    if e4.0 == 0 {
        None
    } else {
        let e3 = table_at(st.1, child(m, e4))[l3(page)];
        if e3.0 == 0 {
            None
        } else {
            Some(child(m, e3))
        }
    }
}

/// The 2 MiB frame and the flags the 2 MiB page at `page` is mapped to, if it is.
pub open spec fn translate_2m<P: PageTableFrameMapping>(m: P, st: TableState, page: u64) -> Option<(u64, u64)> {
    match level2_table(m, st, page) {
        None => None,
        Some(v2) => {
            let e2 = table_at(st.1, v2)[l2(page)];
            if e2.0 & 1 != 0 {
                Some((frame_base::<Size2MiB>(entry_address(e2.0)), e2.0 & PAGE_TABLE_ENTRY_FLAG_BITS))
            } else {
                None
            }
        },
    }
}

/// Unmapping the 2 MiB page at `page`, whose level 2 table the walk reaches.
pub open spec fn unmap_2m<P: PageTableFrameMapping>(m: P, st: TableState, page: u64) -> (TableState, Result<(), UnmappingError>) {
    let v2 = level2_table(m, st, page)->0;
    let e2 = table_at(st.1, v2)[l2(page)];
    if (e2.0 & PAGE_TABLE_ENTRY_FLAG_BITS) & 1 == 0 {
        (st, Err(UnmappingError::PageNotMapped))
    } else {
        (with_entry(st, Some(v2), l2(page), PageTableEntry(0)), Ok(()))
    }
}

/// Every table has 512 entries.
pub open spec fn sized(st: TableState) -> bool {
    &&& st.0.len() == 512
    &&& forall|va: u64| #[trigger] st.1.contains_key(va) ==> st.1[va].len() == 512
}

/// A physical address an entry can hold: 4 KiB aligned and below 2^48.
pub open spec fn proper_frame(fa: u64) -> bool {
    fa & PAGE_TABLE_ENTRY_ADDRESS_BITS == fa
}

/// The allocator, if it gave a frame, gave one an entry can hold.
pub open spec fn proper_alloc(a: Option<u64>) -> bool {
    a matches Some(fa) ==> proper_frame(fa)
}

/// The level 3, 2 and 1 tables the walk for `page` goes through while mapping it.
pub open spec fn map_path<P: PageTableFrameMapping>(
    m: P,
    st: TableState,
    page: u64,
    a: (Option<u64>, Option<u64>, Option<u64>),
) -> Option<(u64, u64, u64)> {
    match descend(m, st, None, l4(page), PARENT_FLAGS, a.0) {
        None => None,
        Some((s1, v3)) => match descend(m, s1, Some(v3), l3(page), PARENT_FLAGS, a.1) {
            None => None,
            Some((s2, v2)) => match descend(m, s2, Some(v2), l2(page), PARENT_FLAGS, a.2) {
                None => None,
                Some((s3, v1)) => Some((v3, v2, v1)),
            },
        },
    }
}

/// The table indices of an address are below 512.
proof fn lemma_indices(a: u64)
    ensures
        0 <= l4(a) < 512,
        0 <= l3(a) < 512,
        0 <= l2(a) < 512,
        0 <= l1(a) < 512,
{
    assert((a >> 39u64) & 0x1ff < 512 && (a >> 30u64) & 0x1ff < 512 && (a >> 21u64) & 0x1ff < 512 && (a >> 12u64)
        & 0x1ff < 512) by (bit_vector);
}

/// Adding flags to an entry does not change the address it holds.
proof fn lemma_entry_bits(e: u64, fa: u64, frame: u64, flags: u64)
    ensures
        entry_address(e | PARENT_FLAGS) == entry_address(e),
        (e | PARENT_FLAGS) != 0,
        (e | PARENT_FLAGS) & 1 != 0,
        (e | PARENT_FLAGS) & PAGE_TABLE_ENTRY_FLAG_BITS & PARENT_FLAGS == PARENT_FLAGS,
        e & 1 != 0 ==> (e | PARENT_FLAGS) & 1 != 0,
        (e & PAGE_TABLE_ENTRY_FLAG_BITS) & 1 == e & 1,
        proper_frame(fa) ==> entry_address(fa | PARENT_FLAGS) == fa,
        proper_frame(frame) && flags & !PAGE_TABLE_ENTRY_FLAG_BITS == 0 ==> entry_address(frame | flags)
            == frame && (frame | flags) & PAGE_TABLE_ENTRY_FLAG_BITS == flags && (frame | flags) & 1
            == flags & 1,
{
    lemma_entry_words(e, fa, frame, flags);
}

/// The bit facts behind `lemma_entry_bits`.
proof fn lemma_entry_words(e: u64, fa: u64, frame: u64, flags: u64)
    by (bit_vector)
    ensures
        ((e | 7) & 0x0000_ffff_ffff_f000u64) == (e & 0x0000_ffff_ffff_f000u64),
        (e | 7) != 0 && (e | 7) & 1 != 0,
        (e | 7) & 0xfff0_0000_0000_0fffu64 & 7 == 7,
        (e & 0xfff0_0000_0000_0fffu64) & 1 == e & 1,
        ((e & 0xfff0_0000_0000_0fffu64) & 1u64 == 1u64) == ((e & 0xfff0_0000_0000_0fffu64) & 1u64 != 0u64),
        fa & 0x0000_ffff_ffff_f000u64 == fa ==> (fa | 7) & 0x0000_ffff_ffff_f000u64 == fa,
        frame & 0x0000_ffff_ffff_f000u64 == frame && flags & !0xfff0_0000_0000_0fffu64 == 0 ==> (frame | flags)
            & 0x0000_ffff_ffff_f000u64 == frame && (frame | flags) & 0xfff0_0000_0000_0fffu64 == flags && (frame
            | flags) & 1 == flags & 1,
        0u64 & 1u64 == 0u64,
        0u64 & 0x0000_ffff_ffff_f000u64 == 0u64,
        (1u64 | 2u64) | 4u64 == 7u64,
{
}

/// A page that is mapped cannot be mapped again: `map_to` is refused with
/// `PageAlreadyMapped`, whatever the frame allocator hands out.
pub proof fn lemma_map_mapped_page<P: PageTableFrameMapping>(
    m: P,
    st: TableState,
    page: u64,
    frame: u64,
    flags: u64,
    a: (Option<u64>, Option<u64>, Option<u64>),
)
    requires
        sized(st),
        translate_4k(m, st, page) is Some,
    ensures
        map_4k(m, st, page, frame, flags, a).1 == Err::<(), MappingError>(MappingError::PageAlreadyMapped),
{
    lemma_indices(page);
    let e4 = st.0[l4(page)];
    let v3 = child(m, e4);
    let e3 = table_at(st.1, v3)[l3(page)];
    let v2 = child(m, e3);
    let e2 = table_at(st.1, v2)[l2(page)];
    let v1 = child(m, e2);
    let e1 = table_at(st.1, v1)[l1(page)];
    lemma_entry_bits(e4.0, 0, 0, 0);
    lemma_entry_bits(e3.0, 0, 0, 0);
    lemma_entry_bits(e2.0, 0, 0, 0);
    lemma_entry_bits(e1.0, 0, 0, 0);
    let (s1, w3) = descend(m, st, None, l4(page), PARENT_FLAGS, a.0)->0;
    assert(w3 == v3);
    assert(s1.1 == st.1);
    let f3 = entry_at(s1, Some(v3), l3(page));
    assert(f3 == e3);
    let (s2, w2) = descend(m, s1, Some(v3), l3(page), PARENT_FLAGS, a.1)->0;
    assert(w2 == v2);
    let f2 = entry_at(s2, Some(v2), l2(page));
    assert(f2 == e2 || f2.0 == e2.0 | PARENT_FLAGS);
    let (s3, w1) = descend(m, s2, Some(v2), l2(page), PARENT_FLAGS, a.2)->0;
    assert(w1 == v1);
    let f1 = entry_at(s3, Some(v1), l1(page));
    assert(f1 == e1 || f1.0 == e1.0 | PARENT_FLAGS);
}

/// Unmapping a page leaves it unmapped: afterwards it does not translate.
pub proof fn lemma_unmap_then_translate<P: PageTableFrameMapping>(m: P, st: TableState, page: u64)
    requires
        sized(st),
        leaf_table(m, st, page) is Some,
    ensures
        translate_4k(m, unmap_4k(m, st, page).0, page) is None,
{
    lemma_indices(page);
    let v1 = leaf_table(m, st, page)->0;
    let e1 = table_at(st.1, v1)[l1(page)];
    lemma_entry_bits(e1.0, 0, 0, 0);
    let s = unmap_4k(m, st, page).0;
    if (e1.0 & PAGE_TABLE_ENTRY_FLAG_BITS) & 1 != 0 {
        let t1 = table_at(st.1, v1);
        lemma_entry_words(0, 0, 0, 0);
        assert(s.1 == st.1.insert(v1, t1.update(l1(page), PageTableEntry(0))));
        assert(s.0 == st.0);
        let e4 = st.0[l4(page)];
        let v3 = child(m, e4);
        let e3 = table_at(st.1, v3)[l3(page)];
        let v2 = child(m, e3);
        let e2 = table_at(st.1, v2)[l2(page)];
        assert(child(m, e2) == v1);
        assert(table_at(s.1, v1)[l1(page)] == PageTableEntry(0));
        let f3 = table_at(s.1, v3)[l3(page)];
        assert(f3 == e3 || f3.0 == 0) by {
            if v3 == v1 {
                assert(table_at(s.1, v3) == t1.update(l1(page), PageTableEntry(0)));
            } else {
                assert(table_at(s.1, v3) == table_at(st.1, v3));
            }
        }
        if f3 == e3 {
            let f2 = table_at(s.1, v2)[l2(page)];
            assert(f2 == e2 || f2.0 == 0) by {
                if v2 == v1 {
                    assert(table_at(s.1, v2) == t1.update(l1(page), PageTableEntry(0)));
                } else {
                    assert(table_at(s.1, v2) == table_at(st.1, v2));
                }
            }
        }
    }
}

/// What is mapped can be looked up: after `map_to` succeeds, with proper
/// frames from the allocator and three distinct tables on the way, the page
/// translates to the frame and flags it was mapped with.
pub proof fn lemma_map_then_translate<P: PageTableFrameMapping>(
    m: P,
    st: TableState,
    page: u64,
    frame: u64,
    flags: u64,
    a: (Option<u64>, Option<u64>, Option<u64>),
)
    requires
        sized(st),
        map_4k(m, st, page, frame, flags, a).1 is Ok,
        proper_alloc(a.0),
        proper_alloc(a.1),
        proper_alloc(a.2),
        map_path(m, st, page, a) matches Some((v3, v2, v1)) && v3 != v2 && v2 != v1 && v3 != v1,
        proper_frame(frame),
        flags & !PAGE_TABLE_ENTRY_FLAG_BITS == 0,
        flags & 1 == 1,
    ensures
        translate_4k(m, map_4k(m, st, page, frame, flags, a).0, page) == Some((frame, flags)),
{
    let (s1, v3) = descend(m, st, None, l4(page), PARENT_FLAGS, a.0)->0;
    let (s2, v2) = descend(m, s1, Some(v3), l3(page), PARENT_FLAGS, a.1)->0;
    let (s3, v1) = descend(m, s2, Some(v2), l2(page), PARENT_FLAGS, a.2)->0;
    let s4 = map_4k(m, st, page, frame, flags, a).0;
    lemma_indices(page);
    let f0: u64 = if a.0 is Some { a.0->0 } else { 0 };
    let f1: u64 = if a.1 is Some { a.1->0 } else { 0 };
    let f2: u64 = if a.2 is Some { a.2->0 } else { 0 };
    lemma_entry_bits(st.0[l4(page)].0, f0, frame, flags);
    lemma_entry_bits(f0, f0, frame, flags);
    lemma_entry_bits(entry_at(s1, Some(v3), l3(page)).0, f1, frame, flags);
    lemma_entry_bits(f1, f1, frame, flags);
    lemma_entry_bits(entry_at(s2, Some(v2), l2(page)).0, f2, frame, flags);
    lemma_entry_bits(f2, f2, frame, flags);
    let e4 = s4.0[l4(page)];
    assert(e4 == s1.0[l4(page)]);
    assert(e4.0 != 0 && child(m, e4) == v3);
    let e3 = table_at(s4.1, v3)[l3(page)];
    assert(e3 == table_at(s2.1, v3)[l3(page)]);
    assert(e3.0 != 0 && child(m, e3) == v2);
    let e2 = table_at(s4.1, v2)[l2(page)];
    assert(e2 == table_at(s3.1, v2)[l2(page)]);
    assert(e2.0 != 0 && child(m, e2) == v1);
    let e1 = table_at(s4.1, v1)[l1(page)];
    assert(e1.0 == frame | flags);
}

/// Walks the page tables, reading them through a frame mapping.
pub struct PageTableWalker<P: PageTableFrameMapping> {
    page_table_frame_mapping: P,
}

impl<P: PageTableFrameMapping> PageTableWalker<P> {
    pub closed spec fn mapping(&self) -> P {
        self.page_table_frame_mapping
    }

    pub fn new(mapping: P) -> (r: Self)
        ensures
            r.mapping() == mapping,
    {
        Self { page_table_frame_mapping: mapping }
    }
}

/// A four-level page table: the top-level table and the memory that holds
/// the tables below it.
pub struct MappedPageTable<P: PageTableFrameMapping> {
    walker: PageTableWalker<P>,
    pml4t: PageTable,
    memory: BTreeMap<u64, PageTable>,
}

/// A table with every entry zero is the empty table.
proof fn lemma_empty_table(t: PageTable)
    requires
        forall|i: int| 0 <= i < 512 ==> #[trigger] t.entries@[i].0 == 0,
    ensures
        t.entries@ == empty_entries(),
{
    assert(t.entries@.len() == 512);
    assert forall|i: int| 0 <= i < 512 implies t.entries@[i] == empty_entries()[i] by {
        assert(t.entries@[i].0 == 0);
    }
    assert(t.entries@ =~= empty_entries());
}

/// `u64` keys are ordered as the map of tables expects.
proof fn lemma_u64_keys()
    ensures
        vstd::std_specs::btree::key_obeys_cmp_spec::<u64>(),
        vstd::laws_cmp::obeys_cmp::<u64>(),
{
    broadcast use vstd::laws_cmp::group_laws_cmp;
}

impl<P: PageTableFrameMapping> MappedPageTable<P> {
    /// The frame mapping the tables are read through.
    pub closed spec fn mapping(&self) -> P {
        self.walker.page_table_frame_mapping
    }

    /// The top-level table and the tables in memory.
    pub closed spec fn state(&self) -> TableState {
        (self.pml4t.entries@, self.memory@.map_values(|t: PageTable| t.entries@))
    }

    /// A page table with top-level table `pml4t` whose other tables are in `memory`.
    pub fn new(walker: PageTableWalker<P>, pml4t: PageTable, memory: BTreeMap<u64, PageTable>) -> (r: Self)
        ensures
            r.mapping() == walker.mapping(),
            r.state() == (pml4t.entries@, memory@.map_values(|t: PageTable| t.entries@)),
    {
        Self { walker, pml4t, memory }
    }

    /// The table seen at `va`.
    fn read_table(&self, va: u64) -> (r: PageTable)
        ensures
            r.entries@ == table_at(self.state().1, va),
    {
        proof {
            lemma_u64_keys();
        }
        match self.memory.get(&va) {
            Some(t) => *t,
            None => {
                let t = PageTable::empty();
                proof {
                    lemma_empty_table(t);
                }
                t
            },
        }
    }

    /// Puts `t` in memory at `va`.
    fn write_table(&mut self, va: u64, t: PageTable)
        ensures
            final(self).state() == (old(self).state().0, old(self).state().1.insert(va, t.entries@)),
            final(self).mapping() == old(self).mapping(),
    {
        proof {
            lemma_u64_keys();
        }
        self.memory.insert(va, t);
        proof {
            assert(self.memory@.map_values(|t: PageTable| t.entries@) =~= old(self).memory@.map_values(
                |t: PageTable| t.entries@,
            ).insert(va, t.entries@));
        }
    }

    /// Entry `i` of the top-level table or of the table at `parent`.
    fn read_entry(&self, parent: Option<u64>, i: usize) -> (r: PageTableEntry)
        requires
            i < 512,
            self.pml4t.entries@.len() == 512,
        ensures
            r == entry_at(self.state(), parent, i as int),
    {
        match parent {
            None => self.pml4t.index(i),
            Some(va) => {
                let t = self.read_table(va);
                t.index(i)
            },
        }
    }

    /// Sets entry `i` of the top-level table or of the table at `parent`.
    fn write_entry(&mut self, parent: Option<u64>, i: usize, e: PageTableEntry)
        requires
            i < 512,
        ensures
            final(self).state() == with_entry(old(self).state(), parent, i as int, e),
            final(self).mapping() == old(self).mapping(),
    {
        match parent {
            None => {
                self.pml4t.set(i, e);
            },
            Some(va) => {
                let mut t = self.read_table(va);
                t.set(i, e);
                self.write_table(va, t);
            },
        }
    }

    /// The table entry `i` of `parent` leads to, allocating a new empty one
    /// if the entry is unused; the ghost result is what the allocator gave.
    pub fn get_or_allocate_pagetable<A: FrameAllocator<Size4KiB>>(
        &mut self,
        parent: Option<u64>,
        i: usize,
        flags: PageTableEntryFlags,
        allocator: &mut A,
    ) -> (r: (Option<u64>, Ghost<Option<u64>>))
        requires
            i < 512,
        ensures
            A::takes(*old(allocator), *final(allocator)),
            r.1@ matches Some(fa) ==> A::gives(*old(allocator), *final(allocator), fa),
            entry_at(old(self).state(), parent, i as int).0 != 0 ==> r.1@ is None && *final(allocator) == *old(
                allocator,
            ),
            final(self).mapping() == old(self).mapping(),
            match descend(old(self).mapping(), old(self).state(), parent, i as int, flags.bits, r.1@) {
                None => r.0 is None && final(self).state() == old(self).state(),
                Some((s, va)) => r.0 == Some(va) && final(self).state() == s,
            },
    {
        let e = self.read_entry(parent, i);
        proof {
            A::lemma_takes_refl(*allocator);
        }
        if e.is_unused() {
            let frame = match allocator.allocate_frame() {
                Some(f) => f,
                None => {
                    return (None, Ghost(None));
                },
            };
            let mut e2 = e;
            e2.set_address(frame.address(), flags);
            self.write_entry(parent, i, e2);
            let va = self.walker.page_table_frame_mapping.frame_to_virtual(frame);
            let t = PageTable::empty();
            proof {
                lemma_empty_table(t);
            }
            self.write_table(va.0, t);
            (Some(va.0), Ghost(Some(frame.address.0)))
        } else {
            let mut e2 = e;
            if !flags.is_empty() && !e.flags().contains(flags) {
                e2.add_flags(flags);
                self.write_entry(parent, i, e2);
            }
            let va = self.walker.page_table_frame_mapping.frame_to_virtual(e2.physical_frame());
            (Some(va.0), Ghost(None))
        }
    }

    /// The top-level table and the tables in memory, by the virtual address
    /// they are seen at, to be written where they belong.
    pub fn tables(&self) -> (r: (&PageTable, &BTreeMap<u64, PageTable>))
        ensures
            (r.0.entries@, r.1@.map_values(|t: PageTable| t.entries@)) == self.state(),
    {
        (&self.pml4t, &self.memory)
    }

    /// The level 1 table of the 4 KiB page `page`, if the walk gets there.
    pub fn leaf_table_of(&self, page: Page<Size4KiB>) -> (r: Option<u64>)
        ensures
            r == leaf_table(self.mapping(), self.state(), page.address.0),
    {
        match self.get_pagetable(None, page.address.l4_index()) {
            None => None,
            Some(l3) => match self.get_pagetable(Some(l3), page.address.l3_index()) {
                None => None,
                Some(l2) => self.get_pagetable(Some(l2), page.address.l2_index()),
            },
        }
    }

    /// The table entry `i` of `parent` leads to, if it is used.
    pub fn get_pagetable(&self, parent: Option<u64>, i: usize) -> (r: Option<u64>)
        requires
            i < 512,
            self.state().0.len() == 512,
        ensures
            entry_at(self.state(), parent, i as int).0 == 0 ==> r is None,
            entry_at(self.state(), parent, i as int).0 != 0 ==> r == Some(
                child(self.mapping(), entry_at(self.state(), parent, i as int)),
            ),
    {
        let e = self.read_entry(parent, i);
        if e.is_unused() {
            None
        } else {
            let va = self.walker.page_table_frame_mapping.frame_to_virtual(e.physical_frame());
            Some(va.0)
        }
    }

}

impl<P: PageTableFrameMapping> Mapper<Size4KiB> for MappedPageTable<P> {
    open spec fn can_unmap(&self, page: u64) -> bool {
        leaf_table(self.mapping(), self.state(), page) is Some
    }

    open spec fn maps_page(before: Self, after: Self, page: u64, frame: u64, flags: u64) -> bool {
        &&& after.mapping() == before.mapping()
        &&& exists|a: (Option<u64>, Option<u64>, Option<u64>)| #[trigger] map_4k(before.mapping(), before.state(), page, frame, flags, a) == (
            after.state(),
            Ok::<(), MappingError>(()),
        )
    }

    open spec fn fails_to_map(before: Self, after: Self, page: u64, frame: u64, flags: u64, e: MappingError) -> bool {
        &&& after.mapping() == before.mapping()
        &&& exists|a: (Option<u64>, Option<u64>, Option<u64>)| #[trigger] map_4k(before.mapping(), before.state(), page, frame, flags, a) == (
            after.state(),
            Err::<(), MappingError>(e),
        )
    }

    /// Maps the 4 KiB page `page` to `frame` with `flags`, creating the
    /// missing tables on the way with frames from `frame_allocator`.
    fn map_to<A: FrameAllocator<Size4KiB>>(
        &mut self,
        frame: PhysicalFrame<Size4KiB>,
        page: Page<Size4KiB>,
        flags: PageTableEntryFlags,
        frame_allocator: &mut A,
    ) -> (r: Result<TlbFlusher<Size4KiB>, MappingError>)
        ensures
            final(self).mapping() == old(self).mapping(),
            exists|a: (Option<u64>, Option<u64>, Option<u64>)|
                {
                    let (s, res) = #[trigger] map_4k(
                        old(self).mapping(),
                        old(self).state(),
                        page.address.0,
                        frame.address.0,
                        flags.bits,
                        a,
                    );
                    &&& s == final(self).state()
                    &&& res is Ok <==> r is Ok
                    &&& r matches Err(e) ==> res == Err::<(), MappingError>(e)
                },
            r matches Ok(f) ==> f.0 == page,
    {
        let parent_flags = PageTableEntryFlags::present().union(PageTableEntryFlags::writable()).union(
            PageTableEntryFlags::user_accessible(),
        );
        proof {
            lemma_entry_words(0, 0, 0, 0);
        }
        let ghost st0 = self.state();
        let ghost fa0 = *frame_allocator;
        let (l3, Ghost(a0)) = self.get_or_allocate_pagetable(None, page.address.l4_index(), parent_flags, frame_allocator);
        let l3 = match l3 {
            Some(v) => v,
            None => {
                assert(map_4k(self.mapping(), st0, page.address.0, frame.address.0, flags.bits, (a0, None, None)) == (self.state(), Err::<(), MappingError>(MappingError::FrameAllocationFailed)));
                assert(<Self as Mapper<Size4KiB>>::fails_to_map(*old(self), *self, page.address.0, frame.address.0, flags.bits, MappingError::FrameAllocationFailed));
                return Err(MappingError::FrameAllocationFailed);
            },
        };
        let ghost st1 = self.state();
        let ghost fa_a1 = *frame_allocator;
        let (l2, Ghost(a1)) = self.get_or_allocate_pagetable(Some(l3), page.address.l3_index(), parent_flags, frame_allocator);
        proof {
            A::lemma_takes_trans(fa0, fa_a1, *frame_allocator);
        }
        let l2 = match l2 {
            Some(v) => v,
            None => {
                assert(map_4k(self.mapping(), st0, page.address.0, frame.address.0, flags.bits, (a0, a1, None)) == (self.state(), Err::<(), MappingError>(MappingError::FrameAllocationFailed)));
                assert(<Self as Mapper<Size4KiB>>::fails_to_map(*old(self), *self, page.address.0, frame.address.0, flags.bits, MappingError::FrameAllocationFailed));
                return Err(MappingError::FrameAllocationFailed);
            },
        };
        let ghost fa_a2 = *frame_allocator;
        let (l1, Ghost(a2)) = self.get_or_allocate_pagetable(Some(l2), page.address.l2_index(), parent_flags, frame_allocator);
        proof {
            A::lemma_takes_trans(fa0, fa_a2, *frame_allocator);
        }
        let l1 = match l1 {
            Some(v) => v,
            None => {
                assert(map_4k(self.mapping(), st0, page.address.0, frame.address.0, flags.bits, (a0, a1, a2)) == (self.state(), Err::<(), MappingError>(MappingError::FrameAllocationFailed)));
                assert(<Self as Mapper<Size4KiB>>::fails_to_map(*old(self), *self, page.address.0, frame.address.0, flags.bits, MappingError::FrameAllocationFailed));
                return Err(MappingError::FrameAllocationFailed);
            },
        };
        let pte = self.read_entry(Some(l1), page.address.l1_index());
        if pte.is_present() {
            assert(map_4k(self.mapping(), st0, page.address.0, frame.address.0, flags.bits, (a0, a1, a2)) == (self.state(), Err::<(), MappingError>(MappingError::PageAlreadyMapped)));
            assert(<Self as Mapper<Size4KiB>>::fails_to_map(*old(self), *self, page.address.0, frame.address.0, flags.bits, MappingError::PageAlreadyMapped));
            Err(MappingError::PageAlreadyMapped)
        } else {
            let mut e = pte;
            e.set_address(frame.address(), flags);
            self.write_entry(Some(l1), page.address.l1_index(), e);
            assert(map_4k(self.mapping(), st0, page.address.0, frame.address.0, flags.bits, (a0, a1, a2)).1 is Ok);
            Ok(TlbFlusher::new(page))
        }
    }

    /// Unmaps the 4 KiB page `page`, whose tables down to level 1 must exist.
    /// The frame handed back is read from the entry after it was cleared,
    /// so it is always the frame at address 0.
    fn unmap(&mut self, page: Page<Size4KiB>) -> (r: Result<(PhysicalFrame<Size4KiB>, TlbFlusher<Size4KiB>), UnmappingError>)
        ensures
            final(self).mapping() == old(self).mapping(),
            ({
                let (s, res) = unmap_4k(old(self).mapping(), old(self).state(), page.address.0);
                &&& s == final(self).state()
                &&& res is Ok <==> r is Ok
            }),
            r matches Ok((f, fl)) ==> f.address.0 == 0 && fl.0 == page,
    {
        let l3 = self.get_pagetable(None, page.address.l4_index()).unwrap();
        let l2 = self.get_pagetable(Some(l3), page.address.l3_index()).unwrap();
        let l1 = self.get_pagetable(Some(l2), page.address.l2_index()).unwrap();
        let mut pte = self.read_entry(Some(l1), page.address.l1_index());
        proof {
            lemma_entry_words(pte.0, 0, 0, 0);
        }
        if !pte.flags().contains(PageTableEntryFlags::present()) {
            return Err(UnmappingError::PageNotMapped);
        }
        pte.set_unused();
        self.write_entry(Some(l1), page.address.l1_index(), pte);
        proof {
            lemma_entry_words(0, 0, 0, 0);
        }
        Ok((PhysicalFrame::containing_address(pte.address()), TlbFlusher::new(page)))
    }
}

impl<P: PageTableFrameMapping> Translator<Size4KiB> for MappedPageTable<P> {
    /// The frame and flags the 4 KiB page `page` is mapped to.
    fn translate(&self, page: Page<Size4KiB>) -> (r: Result<(PhysicalFrame<Size4KiB>, PageTableEntryFlags), TranslationError>)
        ensures
            match r {
                Ok((f, fl)) => translate_4k(self.mapping(), self.state(), page.address.0) == Some((f.address.0, fl.bits)),
                Err(_) => translate_4k(self.mapping(), self.state(), page.address.0) is None,
            },
    {
        let l3 = match self.get_pagetable(None, page.address.l4_index()) {
            Some(v) => v,
            None => {
                return Err(TranslationError::NotMapped);
            },
        };
        let l2 = match self.get_pagetable(Some(l3), page.address.l3_index()) {
            Some(v) => v,
            None => {
                return Err(TranslationError::NotMapped);
            },
        };
        let l1 = match self.get_pagetable(Some(l2), page.address.l2_index()) {
            Some(v) => v,
            None => {
                return Err(TranslationError::NotMapped);
            },
        };
        let pte = self.read_entry(Some(l1), page.address.l1_index());
        if pte.is_present() {
            Ok((pte.physical_frame(), pte.flags()))
        } else {
            Err(TranslationError::NotMapped)
        }
    }
}

impl<P: PageTableFrameMapping> Mapper<Size2MiB> for MappedPageTable<P> {
    open spec fn can_unmap(&self, page: u64) -> bool {
        level2_table(self.mapping(), self.state(), page) is Some
    }

    open spec fn maps_page(before: Self, after: Self, page: u64, frame: u64, flags: u64) -> bool {
        &&& after.mapping() == before.mapping()
        &&& exists|a: (Option<u64>, Option<u64>)| #[trigger] map_2m(before.mapping(), before.state(), page, frame, flags, a) == (
            after.state(),
            Ok::<(), MappingError>(()),
        )
    }

    open spec fn fails_to_map(before: Self, after: Self, page: u64, frame: u64, flags: u64, e: MappingError) -> bool {
        &&& after.mapping() == before.mapping()
        &&& exists|a: (Option<u64>, Option<u64>)| #[trigger] map_2m(before.mapping(), before.state(), page, frame, flags, a) == (
            after.state(),
            Err::<(), MappingError>(e),
        )
    }

    /// Maps the 2 MiB page `page` to `frame` with `flags` and the huge-page
    /// flag, creating the missing tables on the way with frames from
    /// `frame_allocator`.
    fn map_to<A: FrameAllocator<Size4KiB>>(
        &mut self,
        frame: PhysicalFrame<Size2MiB>,
        page: Page<Size2MiB>,
        flags: PageTableEntryFlags,
        frame_allocator: &mut A,
    ) -> (r: Result<TlbFlusher<Size2MiB>, MappingError>)
        ensures
            final(self).mapping() == old(self).mapping(),
            exists|a: (Option<u64>, Option<u64>)|
                {
                    let (s, res) = #[trigger] map_2m(
                        old(self).mapping(),
                        old(self).state(),
                        page.address.0,
                        frame.address.0,
                        flags.bits,
                        a,
                    );
                    &&& s == final(self).state()
                    &&& res is Ok <==> r is Ok
                    &&& r matches Err(e) ==> res == Err::<(), MappingError>(e)
                },
            r matches Ok(f) ==> f.0 == page,
    {
        let parent_flags = PageTableEntryFlags::present().union(PageTableEntryFlags::writable()).union(
            PageTableEntryFlags::user_accessible(),
        );
        proof {
            lemma_entry_words(0, 0, 0, 0);
        }
        let ghost st0 = self.state();
        let ghost fa0 = *frame_allocator;
        let (l3, Ghost(a0)) = self.get_or_allocate_pagetable(None, page.address.l4_index(), parent_flags, frame_allocator);
        let l3 = match l3 {
            Some(v) => v,
            None => {
                assert(map_2m(self.mapping(), st0, page.address.0, frame.address.0, flags.bits, (a0, None)) == (self.state(), Err::<(), MappingError>(MappingError::FrameAllocationFailed)));
                assert(<Self as Mapper<Size2MiB>>::fails_to_map(*old(self), *self, page.address.0, frame.address.0, flags.bits, MappingError::FrameAllocationFailed));
                return Err(MappingError::FrameAllocationFailed);
            },
        };
        let ghost fa_a1 = *frame_allocator;
        let (l2, Ghost(a1)) = self.get_or_allocate_pagetable(Some(l3), page.address.l3_index(), parent_flags, frame_allocator);
        proof {
            A::lemma_takes_trans(fa0, fa_a1, *frame_allocator);
        }
        let l2 = match l2 {
            Some(v) => v,
            None => {
                assert(map_2m(self.mapping(), st0, page.address.0, frame.address.0, flags.bits, (a0, a1)) == (self.state(), Err::<(), MappingError>(MappingError::FrameAllocationFailed)));
                assert(<Self as Mapper<Size2MiB>>::fails_to_map(*old(self), *self, page.address.0, frame.address.0, flags.bits, MappingError::FrameAllocationFailed));
                return Err(MappingError::FrameAllocationFailed);
            },
        };
        let pte = self.read_entry(Some(l2), page.address.l2_index());
        if pte.is_present() {
            assert(map_2m(self.mapping(), st0, page.address.0, frame.address.0, flags.bits, (a0, a1)) == (self.state(), Err::<(), MappingError>(MappingError::PageAlreadyMapped)));
            assert(<Self as Mapper<Size2MiB>>::fails_to_map(*old(self), *self, page.address.0, frame.address.0, flags.bits, MappingError::PageAlreadyMapped));
            Err(MappingError::PageAlreadyMapped)
        } else {
            let mut e = pte;
            e.set_address(frame.address(), flags.union(PageTableEntryFlags::huge_page()));
            self.write_entry(Some(l2), page.address.l2_index(), e);
            assert(map_2m(self.mapping(), st0, page.address.0, frame.address.0, flags.bits, (a0, a1)).1 is Ok);
            Ok(TlbFlusher::new(page))
        }
    }

    /// Unmaps the 2 MiB page `page`, whose tables down to level 2 must exist.
    /// The frame handed back is read from the entry after it was cleared,
    /// so it is always the frame at address 0.
    fn unmap(&mut self, page: Page<Size2MiB>) -> (r: Result<(PhysicalFrame<Size2MiB>, TlbFlusher<Size2MiB>), UnmappingError>)
        ensures
            final(self).mapping() == old(self).mapping(),
            ({
                let (s, res) = unmap_2m(old(self).mapping(), old(self).state(), page.address.0);
                &&& s == final(self).state()
                &&& res is Ok <==> r is Ok
            }),
            r matches Ok((f, fl)) ==> f.address.0 == 0 && fl.0 == page,
    {
        let l3 = self.get_pagetable(None, page.address.l4_index()).unwrap();
        let l2 = self.get_pagetable(Some(l3), page.address.l3_index()).unwrap();
        let mut pte = self.read_entry(Some(l2), page.address.l2_index());
        proof {
            lemma_entry_words(pte.0, 0, 0, 0);
        }
        if !pte.flags().contains(PageTableEntryFlags::present()) {
            return Err(UnmappingError::PageNotMapped);
        }
        pte.set_unused();
        self.write_entry(Some(l2), page.address.l2_index(), pte);
        proof {
            lemma_entry_words(0, 0, 0, 0);
            assert(0u64 % 0x200000 == 0);
        }
        Ok((PhysicalFrame::containing_address(pte.address()), TlbFlusher::new(page)))
    }
}

impl<P: PageTableFrameMapping> Translator<Size2MiB> for MappedPageTable<P> {
    /// The 2 MiB frame and flags the 2 MiB page `page` is mapped to.
    fn translate(&self, page: Page<Size2MiB>) -> (r: Result<(PhysicalFrame<Size2MiB>, PageTableEntryFlags), TranslationError>)
        ensures
            match r {
                Ok((f, fl)) => translate_2m(self.mapping(), self.state(), page.address.0) == Some((f.address.0, fl.bits)),
                Err(_) => translate_2m(self.mapping(), self.state(), page.address.0) is None,
            },
    {
        let l3 = match self.get_pagetable(None, page.address.l4_index()) {
            Some(v) => v,
            None => {
                return Err(TranslationError::NotMapped);
            },
        };
        let l2 = match self.get_pagetable(Some(l3), page.address.l3_index()) {
            Some(v) => v,
            None => {
                return Err(TranslationError::NotMapped);
            },
        };
        let pte = self.read_entry(Some(l2), page.address.l2_index());
        if pte.is_present() {
            Ok((PhysicalFrame::containing_address(pte.address()), pte.flags()))
        } else {
            Err(TranslationError::NotMapped)
        }
    }
}

} // verus!
