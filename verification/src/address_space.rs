//! The address space of a process: its top-level page table and the page
//! tables below it.
use vstd::prelude::*;
use std::collections::BTreeMap;
use crate::mapped_page_table::{leaf_table, map_4k, unmap_4k, TableState};
use crate::memory::{FrameAllocator, Page, PhysicalFrame, Size4KiB};
use crate::offset_page_table::{OffsetPageTable, PhysicalOffset};
use crate::paging::{Mapper, MappingError, PageTable, PageTableEntryFlags, TlbFlusher, UnmappingError};

verus! {

/// An address space: the value of CR3 that selects it and its page table,
/// whose tables are reached through the physical memory mapped at an offset.
pub struct AddressSpace {
    cr3: u64,
    page_table: OffsetPageTable<PhysicalOffset>,
}

impl AddressSpace {
    pub closed spec fn cr3_spec(&self) -> u64 {
        self.cr3
    }

    /// The frame mapping of the page table.
    pub closed spec fn mapping(&self) -> PhysicalOffset {
        self.page_table.mapping()
    }

    /// The page tables.
    pub closed spec fn state(&self) -> TableState {
        self.page_table.state()
    }

    /// The address space selected by `cr3`, whose top-level table is
    /// `pml4t` and whose other tables are in `memory`, seen at
    /// `physical_memory_offset`.
    pub fn new(cr3: u64, physical_memory_offset: usize, pml4t: PageTable, memory: BTreeMap<u64, PageTable>) -> (r: Self)
        ensures
            r.cr3_spec() == cr3,
            r.mapping().offset() == physical_memory_offset,
            r.state() == (pml4t.entries@, memory@.map_values(|t: PageTable| t.entries@)),
    {
        let page_table = OffsetPageTable::new(pml4t, PhysicalOffset::new(physical_memory_offset as u64), memory);
        Self { cr3, page_table }
    }

    /// Maps `page` to `frame` with `flags`, taking frames for missing tables
    /// from `frame_allocator`.
    pub fn map_to<A: FrameAllocator<Size4KiB>>(
        &mut self,
        frame: PhysicalFrame<Size4KiB>,
        page: Page<Size4KiB>,
        flags: PageTableEntryFlags,
        frame_allocator: &mut A,
    ) -> (r: Result<TlbFlusher<Size4KiB>, MappingError>)
        ensures
            final(self).cr3_spec() == old(self).cr3_spec(),
            final(self).mapping() == old(self).mapping(),
            exists|a: (Option<u64>, Option<u64>, Option<u64>)|
                {
                    let (s, res) = #[trigger] map_4k(
                        old(self).mapping(),
                        old(self).state(),
                        page.address.0,
                        frame.address.0,
                        flags.bits,
                        a,
                    );
                    &&& s == final(self).state()
                    &&& res is Ok <==> r is Ok
                    &&& r matches Err(e) ==> res == Err::<(), MappingError>(e)
                },
    {
        let r = self.page_table.map_to(frame, page, flags, frame_allocator);
        proof {
            let a = choose|a: (Option<u64>, Option<u64>, Option<u64>)| {
                let (s, res) = #[trigger] map_4k(
                    old(self).page_table.mapping(),
                    old(self).page_table.state(),
                    page.address.0,
                    frame.address.0,
                    flags.bits,
                    a,
                );
                &&& s == self.page_table.state()
                &&& res is Ok <==> r is Ok
                &&& r matches Err(e) ==> res == Err::<(), MappingError>(e)
            };
            assert(map_4k(old(self).mapping(), old(self).state(), page.address.0, frame.address.0, flags.bits, a).0
                == self.state());
        }
        r
    }

    /// The top-level table and the tables in memory, by the virtual address
    /// they are seen at, to be written where they belong.
    pub fn tables(&self) -> (r: (&PageTable, &BTreeMap<u64, PageTable>))
        ensures
            (r.0.entries@, r.1@.map_values(|t: PageTable| t.entries@)) == self.state(),
    {
        self.page_table.tables()
    }

    /// Whether the tables down to level 1 exist for `page`.
    pub open spec fn can_unmap(&self, page: Page<Size4KiB>) -> bool {
        leaf_table(self.mapping(), self.state(), page.address.0) is Some
    }

    /// Whether the tables down to level 1 exist for `page`.
    pub fn has_leaf_table(&self, page: Page<Size4KiB>) -> (r: bool)
        ensures
            r == self.can_unmap(page),
    {
        self.page_table.leaf_table_of(page).is_some()
    }

    /// Unmaps `page`, whose tables down to level 1 must exist. The frame
    /// handed back is read from the entry after it was cleared, so it is the
    /// frame at address 0.
    pub fn unmap(&mut self, page: Page<Size4KiB>) -> (r: Result<(PhysicalFrame<Size4KiB>, TlbFlusher<Size4KiB>), UnmappingError>)
        requires
            old(self).can_unmap(page),
        ensures
            final(self).cr3_spec() == old(self).cr3_spec(),
            final(self).mapping() == old(self).mapping(),
            ({
                let (s, res) = unmap_4k(old(self).mapping(), old(self).state(), page.address.0);
                &&& s == final(self).state()
                &&& res is Ok <==> r is Ok
            }),
            r matches Ok((f, fl)) ==> f.address.0 == 0 && fl.0 == page,
    {
        self.page_table.unmap(page)
    }

    pub fn cr3(&self) -> (r: u64)
        ensures
            r == self.cr3_spec(),
    {
        self.cr3
    }
}

} // verus!
