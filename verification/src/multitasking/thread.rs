//! Threads: what a thread is made of, how its stack is laid out before it
//! first runs, and how a fault on one of its pages is served.
use vstd::prelude::*;
use crate::address_space::AddressSpace;
use crate::error::KernelError;
use crate::idt::PageFaultErrorCode;
use crate::manager::{next_frames, pages_from, MemoryManager};
use crate::mapped_page_table::{leaf_table, map_4k, map_each, unmap_4k, TableState};
use crate::memory::{Page, PhysicalFrame, Size4KiB, VirtualAddress};
use crate::multitasking::process::{ProcessId, ThreadId};
use crate::offset_page_table::PhysicalOffset;
use crate::paging::{MappingError, PageTableEntryFlags, UnmappingError};
use crate::region::{access_bits, RegionType, VirtualMemoryRegion};
use crate::register::{RFLAGS_INTERRUPT_FLAG, RFLAGS_IOPL_LOW};

verus! {

/// The registers a thread resumes with, in the order they lie on its stack
/// from the lowest address up.
#[derive(Clone, Copy, Debug, Default)]
pub struct ThreadRegisterState {
    pub r15: u64,
    pub r14: u64,
    pub r13: u64,
    pub r12: u64,
    pub r11: u64,
    pub r10: u64,
    pub r9: u64,
    pub r8: u64,
    pub rdi: u64,
    pub rsi: u64,
    pub rsp: u64,
    pub rbp: u64,
    pub rdx: u64,
    pub rcx: u64,
    pub rbx: u64,
    pub rax: u64,
    pub rflags: u64,
    pub rip: u64,
}

/// The size of the saved registers on the stack, in bytes.
pub const REGISTER_STATE_SIZE: u64 = 144;

/// Marks the end of a thread's stack.
pub const STACK_END_MARKER: u64 = 0xDEAD_CAFE_BEEF_BABE;

impl ThreadRegisterState {
    /// The registers as they lie in memory, lowest address first.
    pub open spec fn words_spec(&self) -> Seq<u64> {
        seq![
            self.r15, self.r14, self.r13, self.r12, self.r11, self.r10, self.r9, self.r8, self.rdi,
            self.rsi, self.rsp, self.rbp, self.rdx, self.rcx, self.rbx, self.rax, self.rflags, self.rip,
        ]
    }

    /// The registers as they lie in memory, lowest address first.
    pub fn words(&self) -> (r: Vec<u64>)
        ensures
            r@ == self.words_spec(),
    {
        let r = vec![
            self.r15, self.r14, self.r13, self.r12, self.r11, self.r10, self.r9, self.r8, self.rdi,
            self.rsi, self.rsp, self.rbp, self.rdx, self.rcx, self.rbx, self.rax, self.rflags, self.rip,
        ];
        assert(r@ =~= self.words_spec());
        r
    }
}

/// Where a thread is in its life.
#[derive(Clone, Copy, Debug, PartialEq, Eq, Structural)]
pub enum ThreadRunState {
    Ready,
    Running,
    Blocked,
    Finished,
}

/// How urgently a thread wants to run.
#[derive(Clone, Copy, Debug, PartialEq, Eq, Structural)]
pub enum ThreadPriority {
    Idle,
    Low,
    Normal,
    High,
    Max,
}

/// What a thread's stack holds before its first run: the whole stack from
/// `bottom` to `top` filled with `0xff` bytes, then `words` from `rsp` up.
pub struct StackImage {
    pub bottom: u64,
    pub top: u64,
    pub rsp: u64,
    pub words: Vec<u64>,
}

/// The words a new thread's stack holds from its stack pointer `rsp` up:
/// the saved registers (all zero but the stack and frame pointers, which
/// are `rsp`, the flags, which enable interrupts, and the instruction
/// pointer, which is `entry`), the address `leave` that the thread returns
/// to when it is done, and the end marker.
pub open spec fn initial_stack_words(rsp: u64, entry: u64, leave: u64) -> Seq<u64> {
    seq![
        0u64, 0u64, 0u64, 0u64, 0u64, 0u64, 0u64, 0u64, 0u64, 0u64, rsp, rsp, 0u64, 0u64, 0u64, 0u64,
        RFLAGS_IOPL_LOW | RFLAGS_INTERRUPT_FLAG, entry, leave, STACK_END_MARKER,
    ]
}

/// Whether `region` covers whole pages, one at least, with room after it.
pub open spec fn region_wf(region: VirtualMemoryRegion) -> bool {
    let range = region.range_spec();
    &&& range.end_fits()
    &&& range.start_page.address.0 <= range.end_page.address.0
    &&& range.start_page.address.0 % 0x1000 == 0
    &&& range.end_page.address.0 % 0x1000 == 0
    &&& range.end_spec() - range.start_spec() <= usize::MAX
}

/// A thread: its name, the process it runs in, the memory regions it owns
/// (its stack first), where its stack pointer was saved, its state, its
/// priority and where it starts.
pub struct Thread {
    id: ThreadId,
    name: String,
    process: ProcessId,
    cr3: u64,
    mem_regions: Vec<VirtualMemoryRegion>,
    last_stack_ptr: Box<u64>,
    state: ThreadRunState,
    priority: ThreadPriority,
    entry_func: u64,
}

/// The index of the first region of `regions` of type `typ`, or the
/// number of regions if there is none.
pub open spec fn first_of_type(regions: Seq<VirtualMemoryRegion>, typ: RegionType) -> int
    decreases regions.len(),
{
    if regions.len() == 0 {
        0
    } else if regions[0].typ_spec() == typ {
        0
    } else {
        1 + first_of_type(regions.drop_first(), typ)
    }
}

/// The index of the first region of `regions` that holds `addr`, or the
/// number of regions if none does.
pub open spec fn first_containing(regions: Seq<VirtualMemoryRegion>, addr: u64) -> int
    decreases regions.len(),
{
    if regions.len() == 0 {
        0
    } else if regions[0].range_spec().start_spec() <= addr < regions[0].range_spec().end_spec() {
        0
    } else {
        1 + first_containing(regions.drop_first(), addr)
    }
}

/// Unmapping each of `pages` in turn, a page whose tables down to level 1
/// are missing counting as not mapped; the first failure ends the sequence.
/// The resulting tables and the result of the last unmapping tried.
pub open spec fn unmap_each(m: PhysicalOffset, st: TableState, pages: Seq<u64>) -> (TableState, Result<(), UnmappingError>)
    decreases pages.len(),
{
    if pages.len() == 0 {
        (st, Ok(()))
    } else {
        let (s, res) = unmap_each(m, st, pages.drop_last());
        if res is Err {
            (s, res)
        } else if leaf_table(m, s, pages.last()) is None {
            (s, Err(UnmappingError::PageNotMapped))
        } else {
            unmap_4k(m, s, pages.last())
        }
    }
}

/// Once an unmapping in the sequence fails, the pages after it are not
/// looked at.
pub proof fn lemma_unmap_each_stops(m: PhysicalOffset, st: TableState, pages: Seq<u64>, k: int)
    requires
        0 <= k <= pages.len(),
        unmap_each(m, st, pages.take(k)).1 is Err,
    ensures
        unmap_each(m, st, pages) == unmap_each(m, st, pages.take(k)),
    decreases pages.len() - k,
{
    if k == pages.len() {
        assert(pages.take(k) =~= pages);
    } else {
        assert(pages.drop_last().take(k) =~= pages.take(k));
        lemma_unmap_each_stops(m, st, pages.drop_last(), k);
    }
}

/// The number of pages of `region`.
pub open spec fn page_count(region: VirtualMemoryRegion) -> nat {
    ((region.range_spec().end_page.address.0 - region.range_spec().start_page.address.0) / 0x1000 + 1) as nat
}

/// What laying out the first stack region of `regions` for a thread that
/// starts at `entry` and returns to `leave` gives.
pub open spec fn stack_image(regions: Seq<VirtualMemoryRegion>, entry: u64, leave: u64, image: StackImage) -> bool {
    let range = regions[first_of_type(regions, RegionType::Stack)].range_spec();
    &&& image.bottom == range.start_page.address.0 + 0x1000
    &&& image.top == range.end_page.address.0 + 0x1000
    &&& image.rsp == image.top - 160
    &&& image.words@ == initial_stack_words(image.rsp, entry, leave)
}

impl Thread {
    pub closed spec fn id_spec(&self) -> ThreadId {
        self.id
    }

    pub closed spec fn name_spec(&self) -> Seq<char> {
        self.name@
    }

    pub closed spec fn process_spec(&self) -> ProcessId {
        self.process
    }

    pub closed spec fn cr3_spec(&self) -> u64 {
        self.cr3
    }

    pub closed spec fn mem_regions_spec(&self) -> Seq<VirtualMemoryRegion> {
        self.mem_regions@
    }

    pub closed spec fn last_stack_ptr_spec(&self) -> u64 {
        *self.last_stack_ptr
    }

    pub closed spec fn state_spec(&self) -> ThreadRunState {
        self.state
    }

    pub closed spec fn priority_spec(&self) -> ThreadPriority {
        self.priority
    }

    pub closed spec fn entry_func_spec(&self) -> u64 {
        self.entry_func
    }

    /// Every region covers whole pages.
    pub open spec fn wf(&self) -> bool {
        forall|i: int| 0 <= i < self.mem_regions_spec().len() ==> region_wf(#[trigger] self.mem_regions_spec()[i])
    }

    /// A ready thread named `name` of the process `process`, whose address
    /// space CR3 selects with `cr3`, owning `stack`, that starts at `entry`;
    /// its stack pointer is set when its stack is.
    pub fn new(
        id: ThreadId,
        name: String,
        process: ProcessId,
        cr3: u64,
        stack: VirtualMemoryRegion,
        priority: ThreadPriority,
        entry: u64,
    ) -> (r: Self)
        ensures
            r.id_spec() == id,
            r.name_spec() == name@,
            r.process_spec() == process,
            r.cr3_spec() == cr3,
            r.mem_regions_spec() == seq![stack],
            r.last_stack_ptr_spec() == 0,
            r.state_spec() == ThreadRunState::Ready,
            r.priority_spec() == priority,
            r.entry_func_spec() == entry,
    {
        let mut mem_regions = Vec::new();
        mem_regions.push(stack);
        assert(mem_regions@ =~= seq![stack]);
        Self {
            id,
            name,
            process,
            cr3,
            mem_regions,
            last_stack_ptr: Box::new(0),
            state: ThreadRunState::Ready,
            priority,
            entry_func: entry,
        }
    }

    /// The thread that was running when the kernel started: it owns
    /// `stack`, has normal priority and no entry point.
    pub fn colonel_thread(id: ThreadId, name: String, process: ProcessId, cr3: u64, stack: VirtualMemoryRegion) -> (r: Self)
        ensures
            r.id_spec() == id,
            r.name_spec() == name@,
            r.process_spec() == process,
            r.cr3_spec() == cr3,
            r.mem_regions_spec() == seq![stack],
            r.last_stack_ptr_spec() == 0,
            r.state_spec() == ThreadRunState::Ready,
            r.priority_spec() == ThreadPriority::Normal,
            r.entry_func_spec() == 0,
    {
        Self::new(id, name, process, cr3, stack, ThreadPriority::Normal, 0)
    }

    pub fn set_state(&mut self, state: ThreadRunState)
        ensures
            final(self).state_spec() == state,
            final(self).id_spec() == old(self).id_spec(),
            final(self).name_spec() == old(self).name_spec(),
            final(self).process_spec() == old(self).process_spec(),
            final(self).cr3_spec() == old(self).cr3_spec(),
            final(self).mem_regions_spec() == old(self).mem_regions_spec(),
            final(self).last_stack_ptr_spec() == old(self).last_stack_ptr_spec(),
            final(self).priority_spec() == old(self).priority_spec(),
            final(self).entry_func_spec() == old(self).entry_func_spec(),
    {
        self.state = state;
    }

    /// The value of CR3 that selects the address space of the thread's process.
    pub fn cr3(&self) -> (r: u64)
        ensures
            r == self.cr3_spec(),
    {
        self.cr3
    }

    /// The place where the thread's stack pointer is saved when it is
    /// switched out.
    pub fn last_stack_ptr_mut(&mut self) -> (r: &mut u64)
        ensures
            *r == old(self).last_stack_ptr_spec(),
            final(self).last_stack_ptr_spec() == *final(r),
            final(self).id_spec() == old(self).id_spec(),
            final(self).name_spec() == old(self).name_spec(),
            final(self).process_spec() == old(self).process_spec(),
            final(self).cr3_spec() == old(self).cr3_spec(),
            final(self).mem_regions_spec() == old(self).mem_regions_spec(),
            final(self).state_spec() == old(self).state_spec(),
            final(self).priority_spec() == old(self).priority_spec(),
            final(self).entry_func_spec() == old(self).entry_func_spec(),
    {
        &mut *self.last_stack_ptr
    }

    pub fn last_stack_ptr(&self) -> (r: u64)
        ensures
            r == self.last_stack_ptr_spec(),
    {
        *self.last_stack_ptr
    }

    pub fn name(&self) -> (r: &String)
        ensures
            r@ == self.name_spec(),
    {
        &self.name
    }

    /// Releases what the thread holds once it is done; nothing can fail.
    pub fn finalize(&mut self) -> (r: Result<(), KernelError>)
        ensures
            r is Ok,
            *final(self) == *old(self),
    {
        Ok(())
    }

    /// The index of the first stack region of the thread.
    fn stack_index(&self) -> (r: usize)
        ensures
            r == first_of_type(self.mem_regions_spec(), RegionType::Stack),
            r < self.mem_regions_spec().len() ==> self.mem_regions_spec()[r as int].typ_spec() == RegionType::Stack,
    {
        let mut i: usize = 0;
        assert(self.mem_regions@.skip(0) =~= self.mem_regions@);
        while i < self.mem_regions.len()
            invariant
                i <= self.mem_regions@.len(),
                first_of_type(self.mem_regions@, RegionType::Stack) == i + first_of_type(self.mem_regions@.skip(i as int), RegionType::Stack),
            decreases self.mem_regions@.len() - i,
        {
            proof {
                assert(self.mem_regions@.skip(i as int)[0] == self.mem_regions@[i as int]);
                assert(self.mem_regions@.skip(i as int).drop_first() =~= self.mem_regions@.skip(i + 1));
            }
            if self.mem_regions[i].typ() == RegionType::Stack {
                return i;
            }
            i = i + 1;
        }
        proof {
            assert(self.mem_regions@.skip(i as int).len() == 0);
        }
        i
    }

    /// Lays out the first stack region of the thread for its first run, to
    /// return to `leave` when done, and records its stack pointer. The
    /// stack's guard page, its first, is left out.
    pub fn setup_stack(&mut self, leave: u64) -> (r: StackImage)
        requires
            old(self).wf(),
            first_of_type(old(self).mem_regions_spec(), RegionType::Stack) < old(self).mem_regions_spec().len(),
            ({
                let range = old(self).mem_regions_spec()[first_of_type(old(self).mem_regions_spec(), RegionType::Stack)].range_spec();
                range.start_page.address.0 < range.end_page.address.0
            }),
        ensures
            stack_image(old(self).mem_regions_spec(), old(self).entry_func_spec(), leave, r),
            final(self).last_stack_ptr_spec() == r.rsp,
            final(self).id_spec() == old(self).id_spec(),
            final(self).name_spec() == old(self).name_spec(),
            final(self).process_spec() == old(self).process_spec(),
            final(self).cr3_spec() == old(self).cr3_spec(),
            final(self).mem_regions_spec() == old(self).mem_regions_spec(),
            final(self).state_spec() == old(self).state_spec(),
            final(self).priority_spec() == old(self).priority_spec(),
            final(self).entry_func_spec() == old(self).entry_func_spec(),
    {
        let i = self.stack_index();
        let stack = &self.mem_regions[i];
        proof {
            assert(region_wf(self.mem_regions@[i as int]));
        }
        let bottom = stack.start().0;
        let size = stack.size();
        proof {
            let start = stack.range_spec().start_page.address.0;
            assert((start + 0x1000) % 0x1000 == 0);
            assert(bottom == start + 0x1000);
        }
        let top: u64 = bottom + size as u64;
        let rsp: u64 = top - 16 - REGISTER_STATE_SIZE;
        let registers = ThreadRegisterState {
            r15: 0,
            r14: 0,
            r13: 0,
            r12: 0,
            r11: 0,
            r10: 0,
            r9: 0,
            r8: 0,
            rdi: 0,
            rsi: 0,
            rsp,
            rbp: rsp,
            rdx: 0,
            rcx: 0,
            rbx: 0,
            rax: 0,
            rflags: RFLAGS_IOPL_LOW | RFLAGS_INTERRUPT_FLAG,
            rip: self.entry_func,
        };
        let mut words = registers.words();
        words.push(leave);
        words.push(STACK_END_MARKER);
        assert(words@ =~= initial_stack_words(rsp, self.entry_func, leave));
        *self.last_stack_ptr = rsp;
        StackImage { bottom, top, rsp, words }
    }

    /// The index of the first region of the thread that holds `address`.
    fn region_containing(&self, address: VirtualAddress) -> (r: usize)
        requires
            self.wf(),
        ensures
            r == first_containing(self.mem_regions_spec(), address.0),
            r <= self.mem_regions_spec().len(),
    {
        let mut i: usize = 0;
        assert(self.mem_regions@.skip(0) =~= self.mem_regions@);
        while i < self.mem_regions.len()
            invariant
                self.wf(),
                i <= self.mem_regions@.len(),
                first_containing(self.mem_regions@, address.0) == i + first_containing(self.mem_regions@.skip(i as int), address.0),
            decreases self.mem_regions@.len() - i,
        {
            proof {
                assert(self.mem_regions@.skip(i as int)[0] == self.mem_regions@[i as int]);
                assert(self.mem_regions@.skip(i as int).drop_first() =~= self.mem_regions@.skip(i + 1));
                assert(region_wf(self.mem_regions@[i as int]));
            }
            if self.mem_regions[i].contains(address) {
                return i;
            }
            i = i + 1;
        }
        proof {
            assert(self.mem_regions@.skip(i as int).len() == 0);
        }
        i
    }

    /// Whether a page fault at `address` is one `handle_page_fault` can
    /// serve: a fault in a stack region lays out the thread's first stack
    /// region, which needs a page beyond its guard page.
    pub fn can_serve_fault(&self, address: VirtualAddress) -> (r: bool)
        requires
            self.wf(),
        ensures
            r == ({
                let regions = self.mem_regions_spec();
                let i = first_containing(regions, address.0);
                let s = first_of_type(regions, RegionType::Stack);
                i < regions.len() && regions[i].typ_spec() == RegionType::Stack
                    ==> s < regions.len() && regions[s].range_spec().start_page.address.0 < regions[s].range_spec().end_page.address.0
            }),
    {
        let i = self.region_containing(address);
        if i < self.mem_regions.len() && self.mem_regions[i].typ() == RegionType::Stack {
            let s = self.stack_index();
            if s < self.mem_regions.len() {
                let range = self.mem_regions[s].page_range();
                range.start_page.address.0 < range.end_page.address.0
            } else {
                false
            }
        } else {
            true
        }
    }

    /// Serves a fault at `address` with error code `error` in the thread's
    /// process, whose address space is `address_space`. A fault on a page
    /// that is present, or outside the thread's regions, is refused. For
    /// the first region that holds the address, one frame per page is taken
    /// from `manager`; the region's pages but the first are unmapped, then
    /// mapped in order to the frames with the region's access flags; a
    /// page whose tables are missing counts as not mapped. A stack region
    /// is then laid out for the thread's first run, to return to `leave`,
    /// and its image comes back to be written.
    #[verifier::spinoff_prover]
    #[verifier::rlimit(80)]
    pub fn handle_page_fault(
        &mut self,
        address: VirtualAddress,
        error: PageFaultErrorCode,
        manager: &mut MemoryManager,
        address_space: &mut AddressSpace,
        leave: u64,
    ) -> (r: Result<Option<StackImage>, KernelError>)
        requires
            old(self).wf(),
            ({
                let regions = old(self).mem_regions_spec();
                let i = first_containing(regions, address.0);
                let s = first_of_type(regions, RegionType::Stack);
                i < regions.len() && regions[i].typ_spec() == RegionType::Stack
                    ==> s < regions.len() && regions[s].range_spec().start_page.address.0 < regions[s].range_spec().end_page.address.0
            }),
        ensures
            final(self).wf(),
            final(self).mem_regions_spec() == old(self).mem_regions_spec(),
            final(self).entry_func_spec() == old(self).entry_func_spec(),
            final(self).state_spec() == old(self).state_spec(),
            final(self).cr3_spec() == old(self).cr3_spec(),
            final(address_space).mapping() == old(address_space).mapping(),
            final(address_space).cr3_spec() == old(address_space).cr3_spec(),
            final(manager).region_tree_spec() == old(manager).region_tree_spec(),
            ({
                let regions = old(self).mem_regions_spec();
                let i = first_containing(regions, address.0);
                let region = regions[i];
                let n = page_count(region);
                let list = old(manager).frame_allocator_spec().free_list();
                let offset = old(manager).frame_allocator_spec().offset();
                let m = old(address_space).mapping();
                let pages = pages_from(region.range_spec().start_page.address.0, n).skip(1);
                let flags = access_bits(region.access_spec()) | 1;
                &&& error.bits & 1 != 0 ==> r == Err::<Option<StackImage>, KernelError>(KernelError::Other)
                    && final(address_space).state() == old(address_space).state()
                    && final(self).last_stack_ptr_spec() == old(self).last_stack_ptr_spec()
                &&& error.bits & 1 == 0 && i == regions.len() ==> r == Err::<Option<StackImage>, KernelError>(KernelError::Other)
                    && final(address_space).state() == old(address_space).state()
                    && final(self).last_stack_ptr_spec() == old(self).last_stack_ptr_spec()
                &&& error.bits & 1 == 0 && i < regions.len() && n > list.len() ==>
                    r == Err::<Option<StackImage>, KernelError>(KernelError::MemoryError(crate::error::MemoryError::OutOfPhysicalMemory))
                    && final(address_space).state() == old(address_space).state()
                    && final(self).last_stack_ptr_spec() == old(self).last_stack_ptr_spec()
                &&& error.bits & 1 == 0 && i < regions.len() && n <= list.len() ==> {
                    let (s1, unmapped) = unmap_each(m, old(address_space).state(), pages);
                    &&& unmapped is Err ==> r == Err::<Option<StackImage>, KernelError>(KernelError::PagingUnmappingError(UnmappingError::PageNotMapped))
                        && final(address_space).state() == s1
                        && final(self).last_stack_ptr_spec() == old(self).last_stack_ptr_spec()
                    &&& unmapped is Ok ==> exists|allocs: Seq<(Option<u64>, Option<u64>, Option<u64>)>| {
                        let (s2, mapped) = #[trigger] map_each(
                            m,
                            s1,
                            pages.take(allocs.len() as int),
                            next_frames(list, offset, n).take(allocs.len() as int),
                            flags,
                            allocs,
                        );
                        &&& allocs.len() <= n - 1
                        &&& final(address_space).state() == s2
                        &&& mapped matches Err(e) ==> r == Err::<Option<StackImage>, KernelError>(KernelError::PagingMappingError(e))
                            && final(self).last_stack_ptr_spec() == old(self).last_stack_ptr_spec()
                        &&& mapped is Ok && region.typ_spec() == RegionType::Stack ==> allocs.len() == n - 1
                            && (r matches Ok(Some(image)) && stack_image(regions, old(self).entry_func_spec(), leave, image)
                            && final(self).last_stack_ptr_spec() == image.rsp)
                        &&& mapped is Ok && region.typ_spec() != RegionType::Stack ==> allocs.len() == n - 1
                            && r == Ok::<Option<StackImage>, KernelError>(None)
                            && final(self).last_stack_ptr_spec() == old(self).last_stack_ptr_spec()
                    }
                }
            }),
    {
        let i = self.region_containing(address);
        if !error.is_non_present_fault() {
            return Err(KernelError::Other);
        }
        if i == self.mem_regions.len() {
            return Err(KernelError::Other);
        }
        proof {
            assert(region_wf(self.mem_regions@[i as int]));
        }
        let range = *self.mem_regions[i].page_range();
        let start: u64 = range.start_page.address.0;
        let end: u64 = range.end_page.address.0;
        let n = range.len();
        let ghost list = manager.frame_allocator_spec().free_list();
        let ghost offset = manager.frame_allocator_spec().offset();
        let ghost m = address_space.mapping();
        let ghost st0 = address_space.state();
        let ghost count = page_count(self.mem_regions@[i as int]);
        let ghost pages = pages_from(start, count).skip(1);
        assert(n == count);
        let frames = match manager.try_allocate_frames(n) {
            Ok(frames) => frames,
            Err(e) => {
                return Err(KernelError::MemoryError(e));
            },
        };
        assert(frames@.len() == n) by {
            assert(crate::manager::frame_addresses(frames@).len() == frames@.len());
        }
        let flags = PageTableEntryFlags::from(self.mem_regions[i].access_flags()).union(PageTableEntryFlags::present());
        let ghost targets = next_frames(list, offset, count);
        // Unmap every page but the first.
        assert(pages.take(0) =~= Seq::<u64>::empty());
        let mut j: usize = 1;
        #[verifier::loop_isolation(false)]
        while j < n
            invariant
                manager.region_tree_spec() == old(manager).region_tree_spec(),
                1 <= j <= n,
                n == count,
                count == (end - start) / 0x1000 + 1,
                start <= end,
                start % 0x1000 == 0,
                end + 0x1000 <= u64::MAX,
                pages == pages_from(start, count).skip(1),
                address_space.mapping() == m,
                address_space.cr3_spec() == old(address_space).cr3_spec(),
                unmap_each(m, st0, pages.take(j - 1)) == (address_space.state(), Ok::<(), UnmappingError>(())),
            decreases n - j,
        {
            assert(j * 0x1000 <= end - start) by (nonlinear_arith)
                requires
                    j < count,
                    count == (end - start) / 0x1000 + 1,
                    start <= end,
            ;
            let page_address: u64 = start + j as u64 * 0x1000;
            let page: Page<Size4KiB> = Page::containing_address(VirtualAddress::new(page_address));
            proof {
                assert(page_address % 0x1000 == 0) by (nonlinear_arith)
                    requires
                        start % 0x1000 == 0,
                        page_address == start + j * 0x1000,
                ;
                assert(pages[j - 1] == page_address);
                assert(pages.take(j as int).drop_last() =~= pages.take(j - 1));
                assert(pages.take(j as int).last() == page.address.0);
            }
            if !address_space.has_leaf_table(page) {
                proof {
                    assert(unmap_each(m, st0, pages.take(j as int)) == (address_space.state(), Err::<(), UnmappingError>(UnmappingError::PageNotMapped)));
                    lemma_unmap_each_stops(m, st0, pages, j as int);
                }
                return Err(KernelError::PagingUnmappingError(UnmappingError::PageNotMapped));
            }
            let ghost before = address_space.state();
            let unmapped = address_space.unmap(page);
            proof {
                assert(unmap_each(m, st0, pages.take(j as int)) == unmap_4k(m, before, page.address.0));
            }
            match unmapped {
                Ok((_, flusher)) => {
                    flusher.ignore();
                },
                Err(e) => {
                    proof {
                        lemma_unmap_each_stops(m, st0, pages, j as int);
                    }
                    return Err(KernelError::PagingUnmappingError(e));
                },
            }
            j = j + 1;
        }
        proof {
            assert(pages.take(n - 1) =~= pages);
        }
        let ghost st1 = address_space.state();
        assert(unmap_each(m, st0, pages) == (st1, Ok::<(), UnmappingError>(())));
        assert(flags.bits == access_bits(self.mem_regions@[i as int].access_spec()) | 1);
        // Map the pages but the first to the frames, in order.
        let ghost mut allocs: Seq<(Option<u64>, Option<u64>, Option<u64>)> = Seq::empty();
        proof {
            assert(pages.take(0) =~= Seq::<u64>::empty());
            assert(targets.take(0) =~= Seq::<u64>::empty());
        }
        let mut k: usize = 0;
        #[verifier::loop_isolation(false)]
        while k + 1 < n
            invariant
                manager.region_tree_spec() == old(manager).region_tree_spec(),
                n <= list.len(),
                list == old(manager).frame_allocator_spec().free_list(),
                offset == old(manager).frame_allocator_spec().offset(),
                m == old(address_space).mapping(),
                unmap_each(m, old(address_space).state(), pages) == (st1, Ok::<(), UnmappingError>(())),
                k + 1 <= n,
                n == count,
                count == (end - start) / 0x1000 + 1,
                start <= end,
                start % 0x1000 == 0,
                end + 0x1000 <= u64::MAX,
                frames@.len() == n,
                crate::manager::frame_addresses(frames@) == targets,
                allocs.len() == k,
                pages == pages_from(start, count).skip(1),
                address_space.mapping() == m,
                address_space.cr3_spec() == old(address_space).cr3_spec(),
                map_each(m, st1, pages.take(k as int), targets.take(k as int), flags.bits, allocs)
                    == (address_space.state(), Ok::<(), MappingError>(())),
            decreases n - k,
        {
            assert((k + 1) * 0x1000 <= end - start) by (nonlinear_arith)
                requires
                    k + 1 < count,
                    count == (end - start) / 0x1000 + 1,
                    start <= end,
            ;
            let frame: PhysicalFrame<Size4KiB> = frames[k];
            let page_address: u64 = start + (k as u64 + 1) * 0x1000;
            let page: Page<Size4KiB> = Page::containing_address(VirtualAddress::new(page_address));
            let ghost before = address_space.state();
            let mapped = address_space.map_to(frame, page, flags, manager.frame_allocator());
            let ghost a = choose|a: (Option<u64>, Option<u64>, Option<u64>)| {
                let (s, res) = #[trigger] map_4k(m, before, page.address.0, frame.address.0, flags.bits, a);
                &&& s == address_space.state()
                &&& res is Ok <==> mapped is Ok
                &&& mapped matches Err(e) ==> res == Err::<(), MappingError>(e)
            };
            proof {
                assert(page_address % 0x1000 == 0) by (nonlinear_arith)
                    requires
                        start % 0x1000 == 0,
                        page_address == start + (k + 1) * 0x1000,
                ;
                assert(crate::manager::frame_addresses(frames@)[k as int] == frame.address.0);
                assert(pages[k as int] == page_address);
                let prev = allocs;
                allocs = allocs.push(a);
                assert(pages.take(k + 1).drop_last() =~= pages.take(k as int));
                assert(targets.take(k + 1).drop_last() =~= targets.take(k as int));
                assert(allocs.drop_last() =~= prev);
                assert(pages.take(k + 1).last() == pages[k as int]);
                assert(targets.take(k + 1).last() == targets[k as int]);
                assert(map_each(m, st1, pages.take(k + 1), targets.take(k + 1), flags.bits, allocs)
                    == map_4k(m, before, page.address.0, frame.address.0, flags.bits, a));
            }
            match mapped {
                Ok(flusher) => {
                    flusher.ignore();
                },
                Err(e) => {
                    proof {
                        assert(map_each(m, st1, pages.take(allocs.len() as int), targets.take(allocs.len() as int), flags.bits, allocs)
                            == (address_space.state(), Err::<(), MappingError>(e)));
                        let regions = old(self).mem_regions_spec();
                        assert(first_containing(regions, address.0) == i);
                        let region = regions[i as int];
                        assert(page_count(region) == n);
                        assert(pages == pages_from(region.range_spec().start_page.address.0, page_count(region)).skip(1));
                        assert(access_bits(region.access_spec()) | 1 == flags.bits);
                        assert(targets == next_frames(old(manager).frame_allocator_spec().free_list(), old(manager).frame_allocator_spec().offset(), page_count(region)));
                        assert(st1 == unmap_each(old(address_space).mapping(), old(address_space).state(), pages).0);
                        assert(error.bits & 1 == 0);
                        assert(i < regions.len());
                        assert(page_count(region) <= old(manager).frame_allocator_spec().free_list().len());
                    }
                    return Err(KernelError::PagingMappingError(e));
                },
            }
            k = k + 1;
        }
        proof {
            assert(allocs.len() == n - 1);
            assert(map_each(m, st1, pages.take(allocs.len() as int), targets.take(allocs.len() as int), flags.bits, allocs)
                == (address_space.state(), Ok::<(), MappingError>(())));
            let regions = old(self).mem_regions_spec();
            assert(first_containing(regions, address.0) == i);
            let region = regions[i as int];
            assert(page_count(region) == n);
            assert(pages == pages_from(region.range_spec().start_page.address.0, page_count(region)).skip(1));
            assert(access_bits(region.access_spec()) | 1 == flags.bits);
            assert(targets == next_frames(old(manager).frame_allocator_spec().free_list(), old(manager).frame_allocator_spec().offset(), page_count(region)));
            assert(st1 == unmap_each(old(address_space).mapping(), old(address_space).state(), pages).0);
            assert(page_count(region) <= old(manager).frame_allocator_spec().free_list().len());
        }
        if self.mem_regions[i].typ() == RegionType::Stack {
            let image = self.setup_stack(leave);
            Ok(Some(image))
        } else {
            Ok(None)
        }
    }
}

} // verus!
