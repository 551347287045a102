//! The memory manager: the frames of physical memory, the kernel's page
//! table and the regions of the kernel's part of the address space.
use vstd::prelude::*;
use std::collections::BTreeMap;
use std::ops::Range;
use crate::allocator::{heap_flags, heap_pages, init_heap, HEAP_SIZE, HEAP_START};
use crate::allocator::buddy_allocator::{blocks, push_blocks, BuddyAllocator};
use crate::error::{KernelError, MemoryError};
use crate::linked_list_frame_allocator::{map_fits, map_pages, LinkedListFrameAllocator};
use crate::mapped_page_table::{map_4k, map_each};
use crate::memory::{
    frame_base, FrameAllocator, Page, PageAlignedSize, PageRangeInclusive, PhysicalFrame, PhysicalMemoryRegion, Size4KiB,
    VirtualAddress,
};
use crate::offset_page_table::{OffsetPageTable, PhysicalOffset};
use crate::paging::{mapped_run, Mapper, MappingError, PageTable, PageTableEntryFlags};
use crate::region::{
    access_of, size_allocation, AccessFlags, PlacingStrategy, RegionInfo, RegionTree, RegionType, VirtualMemoryRegion,
};
use crate::virtual_memory_object::{AllocationStrategy, MemoryBackedVirtualMemoryObject, VirtualMemoryObject};

verus! {

/// The frames that the next `n` allocations from a free list `list` hand
/// out, the free list being taken from its end and each frame seen `offset`
/// above its physical address.
pub open spec fn next_frames(list: Seq<usize>, offset: usize, n: nat) -> Seq<u64> {
    Seq::new(n, |i: int| frame_base::<Size4KiB>((list[list.len() - 1 - i] - offset) as u64))
}

/// The addresses of frames.
pub open spec fn frame_addresses(frames: Seq<PhysicalFrame<Size4KiB>>) -> Seq<u64> {
    frames.map_values(|f: PhysicalFrame<Size4KiB>| f.address.0)
}

/// The `n` pages that follow each other from the page at `start`.
pub open spec fn pages_from(start: u64, n: nat) -> Seq<u64> {
    Seq::new(n, |i: int| (start + i * 0x1000) as u64)
}

/// Whether `range` holds exactly `n` pages.
pub open spec fn holds_pages(range: PageRangeInclusive<Size4KiB>, n: nat) -> bool {
    &&& range.start_page.address.0 <= range.end_page.address.0
    &&& (range.end_page.address.0 - range.start_page.address.0) / 0x1000 + 1 == n
}

/// A region just added: of type `typ`, covering the addresses `total`,
/// with nothing allocated in it.
/// What `MemoryManager::allocate_kernel_region_with_size` does, taking the
/// manager from `m0` to `m1` and returning `r`, for a region of `size` bytes
/// named `name` of type `typ` with the page flags `flags`: the first of its
/// failures (too few frames, the region tree's refusal, a range that does not
/// hold one page per frame, a mapping that could not be made), or the region.
pub open spec fn kernel_region_allocation(
    m0: MemoryManager,
    m1: MemoryManager,
    size: usize,
    name: Seq<char>,
    typ: RegionType,
    flags: u64,
    r: Result<VirtualMemoryRegion, KernelError>,
) -> bool {
    let list = m0.frame_allocator_spec().free_list();
    let offset = m0.frame_allocator_spec().offset();
    let n = (size / 0x1000) as nat;
    let table = m0.kernel_page_table_spec()->0;
    let table_after = m1.kernel_page_table_spec()->0;
    &&& m1.region_tree_spec().wf()
    &&& m1.kernel_pml4t_spec() == m0.kernel_pml4t_spec()
    &&& m1.physical_memory_offset_spec() == m0.physical_memory_offset_spec()
    &&& m1.kernel_page_table_spec() is Some
    &&& table_after.mapping() == table.mapping()
    &&& n > list.len() ==> r == Err::<VirtualMemoryRegion, KernelError>(KernelError::MemoryError(MemoryError::OutOfPhysicalMemory))
        && m1.region_tree_spec() == m0.region_tree_spec()
        && table_after.state() == table.state()
    &&& n <= list.len() ==> exists|rt: Result<PageRangeInclusive<Size4KiB>, MemoryError>|
        #[trigger] size_allocation(m0.region_tree_spec().regions(), m1.region_tree_spec().regions(), name, typ, size as int, rt) && {
            &&& rt matches Err(e) ==> r == Err::<VirtualMemoryRegion, KernelError>(KernelError::MemoryError(e))
                && table_after.state() == table.state()
            &&& rt matches Ok(pr) ==> {
            &&& !holds_pages(pr, n) ==> r == Err::<VirtualMemoryRegion, KernelError>(KernelError::Other)
                && table_after.state() == table.state()
            &&& holds_pages(pr, n) ==> exists|allocs: Seq<(Option<u64>, Option<u64>, Option<u64>)>| {
                let (st, res) = #[trigger] map_each(
                    table.mapping(),
                    table.state(),
                    pages_from(pr.start_page.address.0, n).take(allocs.len() as int),
                    next_frames(list, offset, n).take(allocs.len() as int),
                    flags,
                    allocs,
                );
                &&& allocs.len() <= n
                &&& st == table_after.state()
                &&& res is Ok ==> allocs.len() == n && (r matches Ok(reg) && reg.range_spec() == pr && reg.name_spec() == name
                    && reg.typ_spec() == typ && reg.access_spec() == access_of(flags))
                &&& res matches Err(e) ==> r == Err::<VirtualMemoryRegion, KernelError>(KernelError::PagingMappingError(e))
            }
            }
        }
}

pub open spec fn fresh_region(info: RegionInfo, typ: RegionType, total: Range<u64>) -> bool {
    &&& info.typ == typ
    &&& info.allocator.total() == total
    &&& info.allocator.allocated() == Map::<u64, Range<u64>>::empty()
    &&& info.subregions@ == Map::<Seq<char>, PageRangeInclusive<Size4KiB>>::empty()
}

/// Tracks physical memory, the kernel's page table and the regions of the
/// kernel's virtual memory.
pub struct MemoryManager {
    frame_allocator: LinkedListFrameAllocator,
    kernel_pml4t: PhysicalFrame<Size4KiB>,
    kernel_page_table: Option<OffsetPageTable<PhysicalOffset>>,
    physical_memory_offset: usize,
    region_tree: RegionTree,
}

impl MemoryManager {
    pub closed spec fn frame_allocator_spec(&self) -> LinkedListFrameAllocator {
        self.frame_allocator
    }

    pub closed spec fn kernel_pml4t_spec(&self) -> PhysicalFrame<Size4KiB> {
        self.kernel_pml4t
    }

    pub closed spec fn kernel_page_table_spec(&self) -> Option<OffsetPageTable<PhysicalOffset>> {
        self.kernel_page_table
    }

    pub closed spec fn physical_memory_offset_spec(&self) -> usize {
        self.physical_memory_offset
    }

    pub closed spec fn region_tree_spec(&self) -> RegionTree {
        self.region_tree
    }

    /// A manager with no frames, no page table and no regions.
    pub fn new() -> (r: Self)
        ensures
            r.frame_allocator_spec().free_list() == Seq::<usize>::empty(),
            r.frame_allocator_spec().offset() == 0,
            r.kernel_pml4t_spec().address.0 == 0,
            r.kernel_page_table_spec() is None,
            r.physical_memory_offset_spec() == 0,
            r.region_tree_spec().regions() == Seq::<crate::region::RegionInfo>::empty(),
            r.region_tree_spec().wf(),
    {
        Self {
            frame_allocator: LinkedListFrameAllocator::new(),
            kernel_pml4t: PhysicalFrame::new(),
            kernel_page_table: None,
            physical_memory_offset: 0,
            region_tree: RegionTree::new(),
        }
    }

    pub fn kernel_pml4t(&self) -> (r: PhysicalFrame<Size4KiB>)
        ensures
            r == self.kernel_pml4t_spec(),
    {
        self.kernel_pml4t
    }

    /// The kernel's page table, which must have been set up.
    pub fn kernel_page_table(&mut self) -> (r: &OffsetPageTable<PhysicalOffset>)
        requires
            old(self).kernel_page_table_spec() is Some,
        ensures
            Some(*r) == old(self).kernel_page_table_spec(),
            *final(self) == *old(self),
    {
        self.kernel_page_table.as_ref().unwrap()
    }

    /// The regions of the kernel's virtual memory, to change.
    pub fn region_tree(&mut self) -> (r: &mut RegionTree)
        ensures
            *r == old(self).region_tree_spec(),
            final(self).region_tree_spec() == *final(r),
            final(self).frame_allocator_spec() == old(self).frame_allocator_spec(),
            final(self).kernel_pml4t_spec() == old(self).kernel_pml4t_spec(),
            final(self).kernel_page_table_spec() == old(self).kernel_page_table_spec(),
            final(self).physical_memory_offset_spec() == old(self).physical_memory_offset_spec(),
    {
        &mut self.region_tree
    }

    /// The frame allocator, to change.
    pub fn frame_allocator(&mut self) -> (r: &mut LinkedListFrameAllocator)
        ensures
            *r == old(self).frame_allocator_spec(),
            final(self).frame_allocator_spec() == *final(r),
            final(self).region_tree_spec() == old(self).region_tree_spec(),
            final(self).kernel_pml4t_spec() == old(self).kernel_pml4t_spec(),
            final(self).kernel_page_table_spec() == old(self).kernel_page_table_spec(),
            final(self).physical_memory_offset_spec() == old(self).physical_memory_offset_spec(),
    {
        &mut self.frame_allocator
    }

    /// Takes `amt` frames from the frame allocator, in the order it hands
    /// them out. With fewer free frames, every free frame is taken and
    /// `OutOfPhysicalMemory` comes back.
    pub fn try_allocate_frames(&mut self, amt: usize) -> (r: Result<Vec<PhysicalFrame<Size4KiB>>, MemoryError>)
        ensures
            final(self).region_tree_spec() == old(self).region_tree_spec(),
            final(self).kernel_pml4t_spec() == old(self).kernel_pml4t_spec(),
            final(self).kernel_page_table_spec() == old(self).kernel_page_table_spec(),
            final(self).physical_memory_offset_spec() == old(self).physical_memory_offset_spec(),
            final(self).frame_allocator_spec().offset() == old(self).frame_allocator_spec().offset(),
            ({
                let list = old(self).frame_allocator_spec().free_list();
                let offset = old(self).frame_allocator_spec().offset();
                &&& amt <= list.len() ==> (r matches Ok(v) && frame_addresses(v@) == next_frames(list, offset, amt as nat)
                    && final(self).frame_allocator_spec().free_list() == list.take(list.len() - amt))
                &&& amt > list.len() ==> r == Err::<Vec<PhysicalFrame<Size4KiB>>, MemoryError>(MemoryError::OutOfPhysicalMemory)
                    && final(self).frame_allocator_spec().free_list() == Seq::<usize>::empty()
            }),
    {
        let ghost list = self.frame_allocator.free_list();
        let ghost offset = self.frame_allocator.offset();
        let mut frames: Vec<PhysicalFrame<Size4KiB>> = Vec::new();
        let mut k: usize = 0;
        while k < amt
            invariant
                k <= amt,
                k <= list.len(),
                list == old(self).frame_allocator.free_list(),
                offset == old(self).frame_allocator.offset(),
                self.frame_allocator.offset() == offset,
                self.frame_allocator.free_list() == list.take(list.len() - k),
                frame_addresses(frames@) == next_frames(list, offset, k as nat),
                self.region_tree == old(self).region_tree,
                self.kernel_pml4t == old(self).kernel_pml4t,
                self.kernel_page_table == old(self).kernel_page_table,
                self.physical_memory_offset == old(self).physical_memory_offset,
            decreases amt - k,
        {
            let next = self.frame_allocator.allocate_frame();
            match next {
                Some(frame) => {
                    proof {
                        let taken = list.take(list.len() - k);
                        assert(taken.len() > 0);
                        assert(taken.last() == list[list.len() - 1 - k]);
                        assert(frame.address.0 == frame_base::<Size4KiB>((list[list.len() - 1 - k] - offset) as u64));
                        assert(taken.drop_last() =~= list.take(list.len() - (k + 1)));
                    }
                    let ghost prev = frames@;
                    frames.push(frame);
                    proof {
                        assert(frame_addresses(frames@) =~= frame_addresses(prev).push(frame.address.0));
                        assert(frame_addresses(frames@) =~= next_frames(list, offset, (k + 1) as nat));
                    }
                },
                None => {
                    proof {
                        assert(list.take(list.len() - k).len() == 0);
                    }
                    return Err(MemoryError::OutOfPhysicalMemory);
                },
            }
            k = k + 1;
        }
        Ok(frames)
    }

    /// Takes `size / 4096` frames, places a region of `size` bytes under
    /// `name` in the first region of type `typ` and maps its pages, in
    /// order, to the frames with `access_flags`, taking frames for missing
    /// page tables from the frame allocator. Fails with the first error:
    /// too few frames, the region tree's refusal, a range that does not hold
    /// one page per frame, or a mapping that could not be made.
    #[verifier::spinoff_prover]
    #[verifier::rlimit(40)]
    pub fn allocate_kernel_region_with_size(
        &mut self,
        size: PageAlignedSize,
        name: String,
        typ: RegionType,
        access_flags: PageTableEntryFlags,
        strategy: AllocationStrategy,
    ) -> (r: Result<VirtualMemoryRegion, KernelError>)
        requires
            old(self).kernel_page_table_spec() is Some,
            old(self).region_tree_spec().wf(),
            size.0 % 0x1000 == 0,
            size.0 + 0x1000 <= usize::MAX,
        ensures
            final(self).region_tree_spec().wf(),
            final(self).kernel_pml4t_spec() == old(self).kernel_pml4t_spec(),
            final(self).physical_memory_offset_spec() == old(self).physical_memory_offset_spec(),
            final(self).kernel_page_table_spec() is Some,
            final(self).kernel_page_table_spec()->0.mapping() == old(self).kernel_page_table_spec()->0.mapping(),
            ({
                let list = old(self).frame_allocator_spec().free_list();
                let offset = old(self).frame_allocator_spec().offset();
                let n = (size.0 / 0x1000) as nat;
                let table = old(self).kernel_page_table_spec()->0;
                let table_after = final(self).kernel_page_table_spec()->0;
                &&& n > list.len() ==> r == Err::<VirtualMemoryRegion, KernelError>(KernelError::MemoryError(MemoryError::OutOfPhysicalMemory))
                    && final(self).region_tree_spec() == old(self).region_tree_spec()
                    && table_after.state() == table.state()
                &&& n <= list.len() ==> exists|rt: Result<PageRangeInclusive<Size4KiB>, MemoryError>|
                    #[trigger] size_allocation(old(self).region_tree_spec().regions(), final(self).region_tree_spec().regions(), name@, typ, size.0 as int, rt) && {
                        &&& rt matches Err(e) ==> r == Err::<VirtualMemoryRegion, KernelError>(KernelError::MemoryError(e))
                            && table_after.state() == table.state()
                        &&& rt matches Ok(pr) ==> {
                        &&& !holds_pages(pr, n) ==> r == Err::<VirtualMemoryRegion, KernelError>(KernelError::Other)
                            && table_after.state() == table.state()
                        &&& holds_pages(pr, n) ==> exists|allocs: Seq<(Option<u64>, Option<u64>, Option<u64>)>| {
                            let (st, res) = #[trigger] map_each(
                                table.mapping(),
                                table.state(),
                                pages_from(pr.start_page.address.0, n).take(allocs.len() as int),
                                next_frames(list, offset, n).take(allocs.len() as int),
                                access_flags.bits,
                                allocs,
                            );
                            &&& allocs.len() <= n
                            &&& st == table_after.state()
                            &&& res is Ok ==> allocs.len() == n && (r matches Ok(reg) && reg.range_spec() == pr && reg.name_spec() == name@
                                && reg.typ_spec() == typ && reg.access_spec() == access_of(access_flags.bits))
                            &&& res matches Err(e) ==> r == Err::<VirtualMemoryRegion, KernelError>(KernelError::PagingMappingError(e))
                        }
                        }
                    }
            }),
    {
        let ghost list = self.frame_allocator.free_list();
        let ghost offset = self.frame_allocator.offset();
        let ghost table = self.kernel_page_table->0;
        let n: usize = size.0 / 0x1000;
        let frames = match self.try_allocate_frames(n) {
            Ok(frames) => frames,
            Err(e) => {
                return Err(KernelError::MemoryError(e));
            },
        };
        assert(frame_addresses(frames@).len() == frames@.len());
        let obj = match MemoryBackedVirtualMemoryObject::create_with_frames(frames, strategy) {
            Ok(obj) => obj,
            Err(e) => {
                return Err(KernelError::MemoryError(e));
            },
        };
        assert(obj.frames_spec().len() == n);
        assert(n * 0x1000 == size.0) by (nonlinear_arith)
            requires
                n == size.0 / 0x1000,
                size.0 % 0x1000 == 0,
        ;
        let obj_size = obj.size();
        let ghost tree_before = self.region_tree.regions();
        let rt = self.region_tree.try_allocate_size_in_region(name.clone(), typ, obj_size, PlacingStrategy::Anywhere);
        assert(size_allocation(tree_before, self.region_tree.regions(), name@, typ, size.0 as int, rt));
        assert(self.kernel_page_table == old(self).kernel_page_table);
        assert(tree_before == old(self).region_tree.regions());
        assert(n <= list.len());
        assert(size_allocation(old(self).region_tree_spec().regions(), self.region_tree_spec().regions(), name@, typ, size.0 as int, rt));
        let ghost outcome = rt;
        let ghost tree_after = self.region_tree;
        assert(size_allocation(tree_before, tree_after.regions(), name@, typ, size.0 as int, outcome));
        let range = match rt {
            Ok(range) => range,
            Err(e) => {
                return Err(KernelError::MemoryError(e));
            },
        };
        let start: u64 = range.start_page.address.0;
        let end: u64 = range.end_page.address.0;
        if end < start || (end - start) / 0x1000 + 1 != n as u64 {
            return Err(KernelError::Other);
        }
        let ghost pages = pages_from(start, n as nat);
        let ghost targets = next_frames(list, offset, n as nat);
        let mut kernel_table = self.kernel_page_table.take().unwrap();
        let ghost mut allocs: Seq<(Option<u64>, Option<u64>, Option<u64>)> = Seq::empty();
        proof {
            assert(pages.take(0) =~= Seq::<u64>::empty());
            assert(targets.take(0) =~= Seq::<u64>::empty());
        }
        let mut i: usize = 0;
        #[verifier::loop_isolation(false)]
        while i < n
            invariant
                self.region_tree == tree_after,
                self.kernel_pml4t == old(self).kernel_pml4t,
                self.physical_memory_offset == old(self).physical_memory_offset,
                i <= n,
                n == size.0 / 0x1000,
                start <= end,
                start % 0x1000 == 0,
                (end - start) / 0x1000 + 1 == n,
                allocs.len() == i,
                pages == pages_from(start, n as nat),
                targets == next_frames(list, offset, n as nat),
                frame_addresses(obj.frames_spec()) == targets,
                kernel_table.mapping() == table.mapping(),
                map_each(table.mapping(), table.state(), pages.take(i as int), targets.take(i as int), access_flags.bits, allocs)
                    == (kernel_table.state(), Ok::<(), MappingError>(())),
            decreases n - i,
        {
            let frame = obj.frames()[i];
            assert(i * 0x1000 <= end - start) by (nonlinear_arith)
                requires
                    i < n,
                    (end - start) / 0x1000 + 1 == n,
                    start <= end,
            ;
            let address: u64 = start + i as u64 * 0x1000;
            let page: Page<Size4KiB> = Page::containing_address(VirtualAddress::new(address));
            let ghost before = kernel_table.state();
            let mapped = kernel_table.map_to(frame, page, access_flags, &mut self.frame_allocator);
            let ghost a = choose|a: (Option<u64>, Option<u64>, Option<u64>)| {
                let (s, res) = #[trigger] map_4k(table.mapping(), before, page.address.0, frame.address.0, access_flags.bits, a);
                &&& s == kernel_table.state()
                &&& res is Ok <==> mapped is Ok
                &&& mapped matches Err(e) ==> res == Err::<(), MappingError>(e)
            };
            proof {
                assert(frame_addresses(obj.frames_spec())[i as int] == frame.address.0);
                assert(pages[i as int] == address);
                assert(page.address.0 == address) by {
                    assert(address % 0x1000 == 0) by (nonlinear_arith)
                        requires
                            start % 0x1000 == 0,
                            address == start + i * 0x1000,
                    ;
                }
                let prev = allocs;
                allocs = allocs.push(a);
                assert(pages.take(i + 1).drop_last() =~= pages.take(i as int));
                assert(targets.take(i + 1).drop_last() =~= targets.take(i as int));
                assert(allocs.drop_last() =~= prev);
                assert(pages.take(i + 1).last() == pages[i as int]);
                assert(targets.take(i + 1).last() == targets[i as int]);
                assert(allocs.last() == a);
                assert(map_each(table.mapping(), table.state(), pages.take(i + 1), targets.take(i + 1), access_flags.bits, allocs)
                    == map_4k(table.mapping(), before, page.address.0, frame.address.0, access_flags.bits, a));
            }
            match mapped {
                Ok(flusher) => {
                    flusher.ignore();
                },
                Err(e) => {
                    self.kernel_page_table = Some(kernel_table);
                    proof {
                        let nn = (size.0 / 0x1000) as nat;
                        assert(size_allocation(old(self).region_tree_spec().regions(), self.region_tree_spec().regions(), name@, typ, size.0 as int, outcome));
                        assert(outcome == Ok::<PageRangeInclusive<Size4KiB>, MemoryError>(range));
                        assert(table == old(self).kernel_page_table_spec()->0);
                        assert(pages == pages_from(range.start_page.address.0, nn));
                        assert(targets == next_frames(list, offset, nn));
                        assert(allocs.len() == i + 1);
                        assert(map_each(table.mapping(), table.state(), pages_from(range.start_page.address.0, nn).take(allocs.len() as int),
                            next_frames(list, offset, nn).take(allocs.len() as int), access_flags.bits, allocs)
                            == (self.kernel_page_table->0.state(), Err::<(), MappingError>(e)));
                    }
                    return Err(KernelError::PagingMappingError(e));
                },
            }
            i = i + 1;
        }
        self.kernel_page_table = Some(kernel_table);
        assert(size_allocation(old(self).region_tree_spec().regions(), self.region_tree_spec().regions(), name@, typ, size.0 as int, outcome));
        assert(outcome == Ok::<PageRangeInclusive<Size4KiB>, MemoryError>(range));
        assert(table == old(self).kernel_page_table_spec()->0);
        let region = VirtualMemoryRegion::new(range, name, obj, typ, AccessFlags::from(access_flags));
        proof {
            let nn = (size.0 / 0x1000) as nat;
            assert(pages == pages_from(range.start_page.address.0, nn));
            assert(targets == next_frames(list, offset, nn));
            assert(holds_pages(range, nn));
            assert(map_each(table.mapping(), table.state(), pages_from(range.start_page.address.0, nn).take(allocs.len() as int),
                next_frames(list, offset, nn).take(allocs.len() as int), access_flags.bits, allocs)
                == (self.kernel_page_table->0.state(), Ok::<(), MappingError>(())));
        }
        Ok(region)
    }

    /// Sets the manager up from what the boot loader hands over: the memory
    /// map, the offset at which physical memory is mapped, the top-level
    /// page table `pml4t` (its contents and those of the tables below it),
    /// the kernel's stack and the kernel's image. Maps the heap into `heap`,
    /// then records the regions of the heap, of the space between the
    /// stack and the kernel, of the stack and of the kernel.
    pub fn init(
        &mut self,
        memory_map: Vec<PhysicalMemoryRegion>,
        physical_memory_offset: usize,
        pml4t: PhysicalFrame<Size4KiB>,
        pml4t_table: PageTable,
        tables: BTreeMap<u64, PageTable>,
        kernel_stack: PageRangeInclusive<Size4KiB>,
        kernel: PageRangeInclusive<Size4KiB>,
        heap: &mut BuddyAllocator,
    ) -> (r: Result<(), KernelError>)
        requires
            old(self).frame_allocator_spec().free_list().len() == 0,
            map_fits(memory_map@, physical_memory_offset as u64),
            old(self).region_tree_spec().wf(),
            old(heap).wf(),
            kernel_stack.end_fits(),
            kernel.end_fits(),
            kernel.start_page.address.0 >= 1,
            kernel.start_page.address.0 % 0x1000 == 0,
        ensures
            final(self).frame_allocator_spec().offset() == physical_memory_offset,
            ({
                let all = map_pages(memory_map@, physical_memory_offset as u64).map_values(|a: u64| a as usize);
                let left = final(self).frame_allocator_spec().free_list();
                left.len() <= all.len() && left == all.take(left.len() as int)
            }),
            final(self).physical_memory_offset_spec() == physical_memory_offset,
            final(self).kernel_pml4t_spec() == pml4t,
            final(self).kernel_page_table_spec() is Some,
            final(self).region_tree_spec().wf(),
            final(heap).wf(),
            r is Err ==> final(heap)@ == old(heap)@ && final(self).region_tree_spec() == old(self).region_tree_spec(),
            r matches Err(e) ==> e == KernelError::MemoryError(MemoryError::OutOfPhysicalMemory) || e is PagingMappingError,
            r is Ok ==> exists|t0: OffsetPageTable<PhysicalOffset>, a0: LinkedListFrameAllocator|
                #![trigger mapped_run(t0, a0, heap_pages(), heap_flags(), 26, final(self).kernel_page_table_spec()->0, final(self).frame_allocator_spec())]
                t0.state() == (pml4t_table.entries@, tables@.map_values(|t: PageTable| t.entries@))
                    && t0.mapping().offset() == physical_memory_offset as u64
                    && a0.free_list() == map_pages(memory_map@, physical_memory_offset as u64).map_values(|a: u64| a as usize)
                    && a0.offset() == physical_memory_offset
                    && mapped_run(
                    t0,
                    a0,
                    heap_pages(),
                    heap_flags(),
                    26,
                    final(self).kernel_page_table_spec()->0,
                    final(self).frame_allocator_spec(),
                ),
            r is Ok ==> final(heap)@ == push_blocks(old(heap)@, blocks(HEAP_START, (HEAP_START + HEAP_SIZE) as u64)),
            r is Ok ==> {
                let before = old(self).region_tree_spec().regions();
                let after = final(self).region_tree_spec().regions();
                let n = before.len() as int;
                &&& after.len() == n + 4
                &&& after.take(n) == before
                &&& fresh_region(after[n], RegionType::Heap, Range { start: HEAP_START, end: (HEAP_START + HEAP_SIZE) as u64 })
                &&& fresh_region(after[n + 1], RegionType::Stack, Range {
                    start: kernel_stack.start_page.address.0,
                    end: (frame_base::<Size4KiB>((kernel.start_page.address.0 - 1) as u64) + 0x1000) as u64,
                })
                &&& fresh_region(after[n + 2], RegionType::Stack, Range {
                    start: kernel_stack.start_page.address.0,
                    end: (kernel_stack.end_page.address.0 + 0x1000) as u64,
                })
                &&& fresh_region(after[n + 3], RegionType::Elf, Range {
                    start: kernel.start_page.address.0,
                    end: (kernel.end_page.address.0 + 0x1000) as u64,
                })
            },
    {
        self.frame_allocator.init(memory_map, physical_memory_offset);
        self.physical_memory_offset = physical_memory_offset;
        self.kernel_pml4t = pml4t;
        let mut kernel_table = OffsetPageTable::new(pml4t_table, PhysicalOffset::new(physical_memory_offset as u64), tables);
        let ghost t0 = kernel_table;
        let ghost a0 = self.frame_allocator;
        assert(t0.state() == (pml4t_table.entries@, tables@.map_values(|t: PageTable| t.entries@)));
        assert(t0.mapping().offset() == physical_memory_offset as u64);
        assert(a0.free_list() == map_pages(memory_map@, physical_memory_offset as u64).map_values(|a: u64| a as usize));
        assert(a0.offset() == physical_memory_offset);
        let heap_range = init_heap(&mut kernel_table, &mut self.frame_allocator, heap);
        self.kernel_page_table = Some(kernel_table);
        let heap_range = match heap_range {
            Ok(range) => range,
            Err(e) => {
                return Err(e);
            },
        };
        proof {
            assert(mapped_run(t0, a0, heap_pages(), heap_flags(), 26, self.kernel_page_table_spec()->0, self.frame_allocator_spec()));
        }
        let ghost before = self.region_tree.regions();
        self.region_tree.add_region(RegionType::Heap, heap_range);
        let below_kernel = Page::containing_address(VirtualAddress::new(kernel.start_page.address.0 - 1));
        assert(below_kernel.address.0 + 0x1000 == kernel.start_page.address.0);
        self.region_tree.add_region(RegionType::Stack, PageRangeInclusive::new(kernel_stack.start_page, below_kernel));
        self.region_tree.add_region(RegionType::Stack, kernel_stack);
        self.region_tree.add_region(RegionType::Elf, kernel);
        proof {
            let n = before.len() as int;
            let after = self.region_tree.regions();
            assert(after.take(n) =~= before);
        }
        Ok(())
    }
}

} // verus!
