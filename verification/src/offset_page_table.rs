//! Page tables whose frames are all mapped at one offset in the virtual
//! address space.
use vstd::prelude::*;
use std::collections::BTreeMap;
use crate::mapped_page_table::{
    map_2m, map_4k, translate_2m, translate_4k, unmap_2m, unmap_4k, leaf_table, level2_table,
    MappedPageTable, PageTableFrameMapping, PageTableWalker, TableState,
};
use crate::memory::{FrameAllocator, Page, PhysicalFrame, Size2MiB, Size4KiB, VirtualAddress};
use crate::paging::{
    Mapper, MappingError, PageTable, PageTableEntryFlags, TlbFlusher, TranslationError, Translator,
    UnmappingError,
};

verus! {

/// All of physical memory, mapped at `offset`: the frame at physical
/// address `p` is seen at `offset + p` (wrapping around at 2^64).
pub struct PhysicalOffset {
    offset: u64,
}

impl PhysicalOffset {
    pub closed spec fn offset(&self) -> u64 {
        self.offset
    }

    pub fn new(offset: u64) -> (r: Self)
        ensures
            r.offset() == offset,
    {
        Self { offset }
    }
}

impl PageTableFrameMapping for PhysicalOffset {
    open spec fn virtual_of(&self, frame: u64) -> u64 {
        if self.offset() + frame > u64::MAX {
            (self.offset() + frame - 0x1_0000_0000_0000_0000) as u64
        } else {
            (self.offset() + frame) as u64
        }
    }

    fn frame_to_virtual(&self, frame: PhysicalFrame<Size4KiB>) -> (r: VirtualAddress) {
        VirtualAddress::new(self.offset.wrapping_add(frame.address.0))
    }
}

/// A page table that reaches its tables through a frame mapping, such as
/// all of physical memory mapped at an offset.
pub struct OffsetPageTable<P: PageTableFrameMapping> {
    inner: MappedPageTable<P>,
}

impl<P: PageTableFrameMapping> OffsetPageTable<P> {
    /// The frame mapping the tables are read through.
    pub closed spec fn mapping(&self) -> P {
        self.inner.mapping()
    }

    /// The top-level table and the tables in memory.
    pub closed spec fn state(&self) -> TableState {
        self.inner.state()
    }

    /// The page table with top-level table `pml4t`, reaching the tables in
    /// `memory` through `mapping`.
    pub fn new(pml4t: PageTable, mapping: P, memory: BTreeMap<u64, PageTable>) -> (r: Self)
        ensures
            r.mapping() == mapping,
            r.state() == (pml4t.entries@, memory@.map_values(|t: PageTable| t.entries@)),
    {
        let inner = MappedPageTable::new(PageTableWalker::new(mapping), pml4t, memory);
        Self { inner }
    }
}

impl<P: PageTableFrameMapping> OffsetPageTable<P> {
    /// The level 1 table of the 4 KiB page `page`, if the walk gets there.
    pub fn leaf_table_of(&self, page: Page<Size4KiB>) -> (r: Option<u64>)
        ensures
            r == leaf_table(self.mapping(), self.state(), page.address.0),
    {
        self.inner.leaf_table_of(page)
    }

    /// The top-level table and the tables in memory, by the virtual address
    /// they are seen at, to be written where they belong.
    pub fn tables(&self) -> (r: (&PageTable, &BTreeMap<u64, PageTable>))
        ensures
            (r.0.entries@, r.1@.map_values(|t: PageTable| t.entries@)) == self.state(),
    {
        self.inner.tables()
    }
}

impl<P: PageTableFrameMapping> Mapper<Size4KiB> for OffsetPageTable<P> {
    open spec fn can_unmap(&self, page: u64) -> bool {
        leaf_table(self.mapping(), self.state(), page) is Some
    }

    open spec fn maps_page(before: Self, after: Self, page: u64, frame: u64, flags: u64) -> bool {
        &&& after.mapping() == before.mapping()
        &&& exists|a: (Option<u64>, Option<u64>, Option<u64>)| #[trigger] map_4k(before.mapping(), before.state(), page, frame, flags, a) == (
            after.state(),
            Ok::<(), MappingError>(()),
        )
    }

    open spec fn fails_to_map(before: Self, after: Self, page: u64, frame: u64, flags: u64, e: MappingError) -> bool {
        &&& after.mapping() == before.mapping()
        &&& exists|a: (Option<u64>, Option<u64>, Option<u64>)| #[trigger] map_4k(before.mapping(), before.state(), page, frame, flags, a) == (
            after.state(),
            Err::<(), MappingError>(e),
        )
    }

    fn map_to<A: FrameAllocator<Size4KiB>>(
        &mut self,
        frame: PhysicalFrame<Size4KiB>,
        page: Page<Size4KiB>,
        flags: PageTableEntryFlags,
        frame_allocator: &mut A,
    ) -> (r: Result<TlbFlusher<Size4KiB>, MappingError>)
        ensures
            final(self).mapping() == old(self).mapping(),
            exists|a: (Option<u64>, Option<u64>, Option<u64>)|
                {
                    let (s, res) = #[trigger] map_4k(
                        old(self).mapping(),
                        old(self).state(),
                        page.address.0,
                        frame.address.0,
                        flags.bits,
                        a,
                    );
                    &&& s == final(self).state()
                    &&& res is Ok <==> r is Ok
                    &&& r matches Err(e) ==> res == Err::<(), MappingError>(e)
                },
            r matches Ok(f) ==> f.0 == page,
    {
        let r = self.inner.map_to(frame, page, flags, frame_allocator);
        proof {
            let a = choose|a: (Option<u64>, Option<u64>, Option<u64>)| {
                let (s, res) = #[trigger] map_4k(
                    old(self).inner.mapping(),
                    old(self).inner.state(),
                    page.address.0,
                    frame.address.0,
                    flags.bits,
                    a,
                );
                &&& s == self.inner.state()
                &&& res is Ok <==> r is Ok
                &&& r matches Err(e) ==> res == Err::<(), MappingError>(e)
            };
            assert(map_4k(old(self).mapping(), old(self).state(), page.address.0, frame.address.0, flags.bits, a).0
                == self.state());
            if r is Err {
                assert(map_4k(old(self).mapping(), old(self).state(), page.address.0, frame.address.0, flags.bits, a) == (
                    self.state(),
                    Err::<(), MappingError>(r->Err_0),
                ));
                assert(<Self as Mapper<Size4KiB>>::fails_to_map(
                    *old(self),
                    *self,
                    page.address.0,
                    frame.address.0,
                    flags.bits,
                    r->Err_0,
                ));
            }
        }
        r
    }

    fn unmap(&mut self, page: Page<Size4KiB>) -> (r: Result<(PhysicalFrame<Size4KiB>, TlbFlusher<Size4KiB>), UnmappingError>)
        ensures
            final(self).mapping() == old(self).mapping(),
            ({
                let (s, res) = unmap_4k(old(self).mapping(), old(self).state(), page.address.0);
                &&& s == final(self).state()
                &&& res is Ok <==> r is Ok
            }),
            r matches Ok((f, fl)) ==> f.address.0 == 0 && fl.0 == page,
    {
        self.inner.unmap(page)
    }
}

impl<P: PageTableFrameMapping> Mapper<Size2MiB> for OffsetPageTable<P> {
    open spec fn can_unmap(&self, page: u64) -> bool {
        level2_table(self.mapping(), self.state(), page) is Some
    }

    open spec fn maps_page(before: Self, after: Self, page: u64, frame: u64, flags: u64) -> bool {
        &&& after.mapping() == before.mapping()
        &&& exists|a: (Option<u64>, Option<u64>)| #[trigger] map_2m(before.mapping(), before.state(), page, frame, flags, a) == (
            after.state(),
            Ok::<(), MappingError>(()),
        )
    }

    open spec fn fails_to_map(before: Self, after: Self, page: u64, frame: u64, flags: u64, e: MappingError) -> bool {
        &&& after.mapping() == before.mapping()
        &&& exists|a: (Option<u64>, Option<u64>)| #[trigger] map_2m(before.mapping(), before.state(), page, frame, flags, a) == (
            after.state(),
            Err::<(), MappingError>(e),
        )
    }

    fn map_to<A: FrameAllocator<Size4KiB>>(
        &mut self,
        frame: PhysicalFrame<Size2MiB>,
        page: Page<Size2MiB>,
        flags: PageTableEntryFlags,
        frame_allocator: &mut A,
    ) -> (r: Result<TlbFlusher<Size2MiB>, MappingError>)
        ensures
            final(self).mapping() == old(self).mapping(),
            exists|a: (Option<u64>, Option<u64>)|
                {
                    let (s, res) = #[trigger] map_2m(
                        old(self).mapping(),
                        old(self).state(),
                        page.address.0,
                        frame.address.0,
                        flags.bits,
                        a,
                    );
                    &&& s == final(self).state()
                    &&& res is Ok <==> r is Ok
                    &&& r matches Err(e) ==> res == Err::<(), MappingError>(e)
                },
            r matches Ok(f) ==> f.0 == page,
    {
        let r = self.inner.map_to(frame, page, flags, frame_allocator);
        proof {
            let a = choose|a: (Option<u64>, Option<u64>)| {
                let (s, res) = #[trigger] map_2m(
                    old(self).inner.mapping(),
                    old(self).inner.state(),
                    page.address.0,
                    frame.address.0,
                    flags.bits,
                    a,
                );
                &&& s == self.inner.state()
                &&& res is Ok <==> r is Ok
                &&& r matches Err(e) ==> res == Err::<(), MappingError>(e)
            };
            assert(map_2m(old(self).mapping(), old(self).state(), page.address.0, frame.address.0, flags.bits, a).0
                == self.state());
            if r is Err {
                assert(map_2m(old(self).mapping(), old(self).state(), page.address.0, frame.address.0, flags.bits, a) == (
                    self.state(),
                    Err::<(), MappingError>(r->Err_0),
                ));
                assert(<Self as Mapper<Size2MiB>>::fails_to_map(
                    *old(self),
                    *self,
                    page.address.0,
                    frame.address.0,
                    flags.bits,
                    r->Err_0,
                ));
            }
        }
        r
    }

    fn unmap(&mut self, page: Page<Size2MiB>) -> (r: Result<(PhysicalFrame<Size2MiB>, TlbFlusher<Size2MiB>), UnmappingError>)
        ensures
            final(self).mapping() == old(self).mapping(),
            ({
                let (s, res) = unmap_2m(old(self).mapping(), old(self).state(), page.address.0);
                &&& s == final(self).state()
                &&& res is Ok <==> r is Ok
            }),
            r matches Ok((f, fl)) ==> f.address.0 == 0 && fl.0 == page,
    {
        self.inner.unmap(page)
    }
}

impl<P: PageTableFrameMapping> Translator<Size4KiB> for OffsetPageTable<P> {
    fn translate(&self, page: Page<Size4KiB>) -> (r: Result<(PhysicalFrame<Size4KiB>, PageTableEntryFlags), TranslationError>)
        ensures
            match r {
                Ok((f, fl)) => translate_4k(self.mapping(), self.state(), page.address.0) == Some((f.address.0, fl.bits)),
                Err(_) => translate_4k(self.mapping(), self.state(), page.address.0) is None,
            },
    {
        self.inner.translate(page)
    }
}

impl<P: PageTableFrameMapping> Translator<Size2MiB> for OffsetPageTable<P> {
    fn translate(&self, page: Page<Size2MiB>) -> (r: Result<(PhysicalFrame<Size2MiB>, PageTableEntryFlags), TranslationError>)
        ensures
            match r {
                Ok((f, fl)) => translate_2m(self.mapping(), self.state(), page.address.0) == Some((f.address.0, fl.bits)),
                Err(_) => translate_2m(self.mapping(), self.state(), page.address.0) is None,
            },
    {
        self.inner.translate(page)
    }
}

} // verus!
