//! Processes: an identifier, a name and an address space each.
use vstd::prelude::*;
use std::collections::BTreeMap;
use crate::address_space::AddressSpace;
use crate::error::{KernelError, MemoryError};
use crate::manager::{kernel_region_allocation, pages_from, MemoryManager};
use crate::mapped_page_table::translate_4k;
use crate::memory::{frame_base, Page, PageAlignedSize, PageRangeInclusive, PhysicalFrame, Size4KiB, VirtualAddress, KIB};
use crate::multitasking::scheduler::Scheduler;
use crate::multitasking::thread::{Thread, ThreadPriority, ThreadRunState};
use crate::paging::{PageTableEntryFlags, Translator};
use crate::region::{access_of, range_allocation, AccessFlags, RegionType, VirtualMemoryRegion};
use crate::virtual_memory_object::{AllocationStrategy, MemoryBackedVirtualMemoryObject};

verus! {

broadcast use vstd::std_specs::btree::group_btree_axioms;

/// The identifier of a process.
#[derive(Clone, Copy, Debug, PartialEq, Eq, Structural)]
pub struct ProcessId(u64);

impl ProcessId {
    pub closed spec fn value(&self) -> u64 {
        self.0
    }

    /// The next identifier from `next`, which then moves on by one (and
    /// wraps around at 2^64, as the counter it stands for does).
    pub fn new(next: &mut u64) -> (r: Self)
        ensures
            r.value() == *old(next),
            *final(next) == (if *old(next) == u64::MAX { 0 } else { (*old(next) + 1) as u64 }),
    {
        let id = *next;
        *next = next.wrapping_add(1);
        Self(id)
    }

    pub fn as_u64(&self) -> (r: u64)
        ensures
            r == self.value(),
    {
        self.0
    }
}

/// The identifier of a thread.
#[derive(Clone, Copy, Debug, PartialEq, Eq, Structural)]
pub struct ThreadId(u64);

impl ThreadId {
    pub closed spec fn value(&self) -> u64 {
        self.0
    }

    /// The next identifier from `next`, which then moves on by one (and
    /// wraps around at 2^64, as the counter it stands for does).
    pub fn new(next: &mut u64) -> (r: Self)
        ensures
            r.value() == *old(next),
            *final(next) == (if *old(next) == u64::MAX { 0 } else { (*old(next) + 1) as u64 }),
    {
        let id = *next;
        *next = next.wrapping_add(1);
        Self(id)
    }

    pub fn as_u64(&self) -> (r: u64)
        ensures
            r == self.value(),
    {
        self.0
    }
}

/// A process: its identifier, its name and its address space.
pub struct Process {
    id: ProcessId,
    name: String,
    address_space: AddressSpace,
}

impl Process {
    pub closed spec fn id_spec(&self) -> ProcessId {
        self.id
    }

    pub closed spec fn name_spec(&self) -> Seq<char> {
        self.name@
    }

    pub closed spec fn address_space_spec(&self) -> AddressSpace {
        self.address_space
    }

    pub fn new(name: String, id: ProcessId, address_space: AddressSpace) -> (r: Self)
        ensures
            r.id_spec() == id,
            r.name_spec() == name@,
            r.address_space_spec() == address_space,
    {
        Self { id, name, address_space }
    }

    pub fn id(&self) -> (r: ProcessId)
        ensures
            r == self.id_spec(),
    {
        self.id
    }

    /// The address space, to change.
    pub fn address_space(&mut self) -> (r: &mut AddressSpace)
        ensures
            *r == old(self).address_space_spec(),
            final(self).address_space_spec() == *final(r),
            final(self).id_spec() == old(self).id_spec(),
            final(self).name_spec() == old(self).name_spec(),
    {
        &mut self.address_space
    }
}

/// All processes, by identifier.
pub struct ProcessTree {
    inner: BTreeMap<u64, Process>,
}

impl ProcessTree {
    /// The identifiers of the processes.
    pub closed spec fn ids(&self) -> Set<u64> {
        self.inner@.dom()
    }

    /// The process with identifier `id`.
    pub closed spec fn process(&self, id: u64) -> Process {
        self.inner@[id]
    }

    pub fn new() -> (r: Self)
        ensures
            r.ids() == Set::<u64>::empty(),
    {
        Self { inner: BTreeMap::new() }
    }

    /// Records `process` under `id`, in place of any process recorded
    /// under it before.
    pub fn add_process(&mut self, id: ProcessId, process: Process)
        ensures
            final(self).ids() == old(self).ids().insert(id.value()),
            final(self).process(id.value()) == process,
            forall|k: u64| k != id.value() && old(self).ids().contains(k) ==> final(self).process(k) == old(self).process(k),
    {
        self.inner.insert(id.0, process);
    }
}

/// The size of a kernel thread's stack.
pub const DEFAULT_STACK_SIZE: usize = 32 * 1024;

/// The name of the stack region of the thread named `name`.
pub open spec fn stack_name_spec(name: Seq<char>) -> Seq<char> {
    name + seq!['_', 's', 't', 'a', 'c', 'k']
}

/// The name of the stack region of the thread named `name`: `name`
/// followed by `_stack`.
fn stack_name(name: &String) -> (r: String)
    ensures
        r@ == stack_name_spec(name@),
{
    let r = name.clone().concat("_stack");
    proof {
        reveal_strlit("_stack");
    }
    r
}

/// The pages of `stack` after its first page, the guard.
pub open spec fn pages_after_guard(stack: PageRangeInclusive<Size4KiB>) -> Seq<u64> {
    let first = frame_base::<Size4KiB>((stack.start_page.address.0 + 0x1000) as u64);
    let e = stack.end_page.address.0;
    if first <= e {
        pages_from(first, ((e - first) / 0x1000 + 1) as nat)
    } else {
        Seq::empty()
    }
}

/// Sets multitasking up: the kernel's process, named `colonel`, gets the
/// next process identifier, the address space `address_space` and a place
/// in `tree`; the stack the kernel started on, `kernel_stack`, whose pages
/// but the first (its guard) are mapped in the kernel's page table, becomes
/// a region of the kernel, and the thread that was running, named
/// `colonel_thread`, becomes the running thread of `scheduler`.
pub fn init(
    tree: &mut ProcessTree,
    manager: &mut MemoryManager,
    scheduler: &mut Scheduler,
    next_process_id: &mut u64,
    next_thread_id: &mut u64,
    address_space: AddressSpace,
    kernel_stack: PageRangeInclusive<Size4KiB>,
) -> (r: Result<(), KernelError>)
    requires
        old(manager).kernel_page_table_spec() is Some,
        old(manager).region_tree_spec().wf(),
        kernel_stack.end_fits(),
        kernel_stack.start_page.address.0 + 0x1000 <= u64::MAX,
    ensures
        final(tree).ids() == old(tree).ids().insert(*old(next_process_id)),
        final(tree).process(*old(next_process_id)).id_spec().value() == *old(next_process_id),
        final(tree).process(*old(next_process_id)).address_space_spec() == address_space,
        forall|k: u64| k != *old(next_process_id) && old(tree).ids().contains(k) ==> final(tree).process(k) == old(tree).process(k),
        final(manager).region_tree_spec().wf(),
        final(manager).kernel_page_table_spec() == old(manager).kernel_page_table_spec(),
        r is Err ==> final(scheduler).running() == old(scheduler).running(),
        r is Ok ==> (final(scheduler).running() matches Some(t) && t.process_spec().value() == *old(next_process_id)
            && t.id_spec().value() == *old(next_thread_id) && t.cr3_spec() == address_space.cr3_spec()
            && t.state_spec() == ThreadRunState::Running && t.priority_spec() == ThreadPriority::Normal
            && t.mem_regions_spec().len() == 1 && t.mem_regions_spec()[0].range_spec() == kernel_stack
            && t.mem_regions_spec()[0].typ_spec() == RegionType::Stack),
        final(scheduler).ready() == old(scheduler).ready(),
        final(scheduler).dying() == old(scheduler).dying(),
        final(tree).process(*old(next_process_id)).name_spec() == "colonel"@,
        ({
            let table = old(manager).kernel_page_table_spec()->0;
            let pages = pages_after_guard(kernel_stack);
            let mapped = forall|i: int|
                0 <= i < pages.len() ==> translate_4k(table.mapping(), table.state(), #[trigger] pages[i]) is Some;
            &&& !mapped ==> (r matches Err(KernelError::PagingTranslationError(_)))
                && final(manager).region_tree_spec() == old(manager).region_tree_spec()
            &&& mapped ==> exists|rr: Result<(), MemoryError>|
                #[trigger] range_allocation(
                    old(manager).region_tree_spec().regions(),
                    final(manager).region_tree_spec().regions(),
                    stack_name_spec("colonel_thread"@),
                    RegionType::Stack,
                    kernel_stack,
                    rr,
                ) && (rr matches Err(e) ==> r == Err::<(), KernelError>(KernelError::MemoryError(e))) && (rr is Ok
                    ==> r is Ok)
            &&& r is Ok ==> (final(scheduler).running() matches Some(t) && {
                let region = t.mem_regions_spec()[0];
                &&& t.name_spec() == "colonel_thread"@
                &&& region.name_spec() == stack_name_spec("colonel_thread"@)
                &&& region.frames_spec().len() == pages.len()
                &&& forall|i: int|
                    0 <= i < pages.len() ==> (translate_4k(table.mapping(), table.state(), #[trigger] pages[i])->0).0
                        == region.frames_spec()[i].address.0
            })
        }),
{
    let ghost m0 = *manager;
    let pid = ProcessId::new(next_process_id);
    let cr3 = address_space.cr3();
    let process = Process::new("colonel".to_owned(), pid, address_space);
    tree.add_process(pid, process);
    let table = manager.kernel_page_table();
    let ghost t0 = m0.kernel_page_table_spec()->0;
    let ghost pages = pages_after_guard(kernel_stack);
    let mut frames: Vec<PhysicalFrame<Size4KiB>> = Vec::new();
    let end: u64 = kernel_stack.end_page.address.0;
    let mut page: Page<Size4KiB> = Page::containing_address(VirtualAddress::new(kernel_stack.start_page.address.0 + 0x1000));
    let ghost first = page.address.0;
    #[verifier::loop_isolation(false)]
    while page.address.0 <= end
        invariant
            end + 0x1000 <= u64::MAX,
            *table == t0,
            page.address.0 % 0x1000 == 0,
            first <= page.address.0,
            page.address.0 == first + frames@.len() * 0x1000,
            first <= end ==> frames@.len() <= pages.len(),
            first > end ==> frames@.len() == 0,
            forall|j: int|
                0 <= j < frames@.len() ==> translate_4k(t0.mapping(), t0.state(), #[trigger] pages[j]) is Some
                    && (translate_4k(t0.mapping(), t0.state(), pages[j])->0).0 == frames@[j].address.0,
        decreases end + 0x1000 - page.address.0,
    {
        let ghost k = frames@.len() as int;
        assert(pages[k] == page.address.0);
        match table.translate(page) {
            Ok((frame, _)) => {
                frames.push(frame);
            },
            Err(e) => {
                return Err(KernelError::PagingTranslationError(e));
            },
        }
        page = Page::containing_address(VirtualAddress::new(page.address.0 + 0x1000));
    }
    assert(frames@.len() == pages.len());
    let obj = MemoryBackedVirtualMemoryObject::new(frames);
    let thread_name = "colonel_thread".to_owned();
    let region_name = stack_name(&thread_name);
    let rr = manager.region_tree().try_allocate_range_in_region(region_name.clone(), RegionType::Stack, kernel_stack);
    proof {
        assert(range_allocation(
            m0.region_tree_spec().regions(),
            manager.region_tree_spec().regions(),
            stack_name_spec("colonel_thread"@),
            RegionType::Stack,
            kernel_stack,
            rr,
        ));
    }
    match rr {
        Ok(()) => {},
        Err(e) => {
            return Err(KernelError::MemoryError(e));
        },
    }
    let stack = VirtualMemoryRegion::new(kernel_stack, region_name, obj, RegionType::Stack, AccessFlags::default());
    let thread = Thread::colonel_thread(ThreadId::new(next_thread_id), thread_name, pid, cr3, stack);
    scheduler.init(thread);
    Ok(())
}

/// The page flags of a kernel thread's stack: present, writable, not executable.
pub open spec fn kernel_stack_flags() -> u64 {
    crate::region::WRITABLE | 1 | crate::region::NO_EXECUTE
}

/// What `spawn_kernel_thread` does, taking the manager from `m0` to `m1`, the
/// scheduler from `s0` to `s1` and the thread counter from `next0` to `next1`,
/// and returning `r`: the allocation of the stack (see
/// `kernel_region_allocation`) fails and its error comes back with nothing else
/// changed, or a thread of the given name, entry point, priority, process and
/// address space, with that stack as its only region and the counter's value
/// as its identifier, joins the end of the line.
pub open spec fn kernel_thread_spawn(
    m0: MemoryManager,
    m1: MemoryManager,
    s0: Scheduler,
    s1: Scheduler,
    next0: u64,
    next1: u64,
    name: Seq<char>,
    entry: u64,
    priority: ThreadPriority,
    process: ProcessId,
    cr3: u64,
    r: Result<ThreadId, KernelError>,
) -> bool {
    &&& s1.running() == s0.running()
    &&& s1.dying() == s0.dying()
    &&& s1.running_is_finished() == s0.running_is_finished()
    &&& exists|stack: Result<VirtualMemoryRegion, KernelError>|
        #[trigger] kernel_region_allocation(m0, m1, DEFAULT_STACK_SIZE, stack_name_spec(name), RegionType::Stack, kernel_stack_flags(), stack)
            && match stack {
            Err(e) => r == Err::<ThreadId, KernelError>(e) && s1.ready() == s0.ready() && next1 == next0,
            Ok(region) => {
                let t = s1.ready().last();
                &&& r matches Ok(id) && id.value() == next0
                &&& next1 == (if next0 == u64::MAX { 0 } else { (next0 + 1) as u64 })
                &&& s1.ready().len() == s0.ready().len() + 1
                &&& s1.ready().drop_last() == s0.ready()
                &&& t.name_spec() == name
                &&& t.id_spec().value() == next0
                &&& t.process_spec() == process
                &&& t.cr3_spec() == cr3
                &&& t.state_spec() == ThreadRunState::Ready
                &&& t.priority_spec() == priority
                &&& t.entry_func_spec() == entry
                &&& t.mem_regions_spec() == seq![region]
            },
        }
}

/// Spawns a kernel thread named `name` in the process `process`, whose
/// address space CR3 selects with `cr3`: it gets the next thread
/// identifier, a stack region of `DEFAULT_STACK_SIZE` bytes named after it,
/// writable, not executable and mapped at once by `manager`, the priority
/// `priority` and the entry point `entry`, and it joins the end of the line
/// of `scheduler`.
pub fn spawn_kernel_thread(
    name: String,
    entry: u64,
    priority: ThreadPriority,
    process: ProcessId,
    cr3: u64,
    next_thread_id: &mut u64,
    manager: &mut MemoryManager,
    scheduler: &mut Scheduler,
) -> (r: Result<ThreadId, KernelError>)
    requires
        old(manager).kernel_page_table_spec() is Some,
        old(manager).region_tree_spec().wf(),
    ensures
        kernel_thread_spawn(
            *old(manager),
            *final(manager),
            *old(scheduler),
            *final(scheduler),
            *old(next_thread_id),
            *final(next_thread_id),
            name@,
            entry,
            priority,
            process,
            cr3,
            r,
        ),
        final(manager).region_tree_spec().wf(),
        final(manager).kernel_page_table_spec() is Some,
        r matches Ok(id) ==> id.value() == *old(next_thread_id),
        final(scheduler).running() == old(scheduler).running(),
        final(scheduler).dying() == old(scheduler).dying(),
        final(scheduler).running_is_finished() == old(scheduler).running_is_finished(),
        r is Err ==> final(scheduler).ready() == old(scheduler).ready(),
        r is Ok ==> {
            let ready = final(scheduler).ready();
            let t = ready.last();
            &&& ready.drop_last() == old(scheduler).ready()
            &&& t.name_spec() == name@
            &&& t.id_spec().value() == *old(next_thread_id)
            &&& t.process_spec() == process
            &&& t.cr3_spec() == cr3
            &&& t.state_spec() == ThreadRunState::Ready
            &&& t.priority_spec() == priority
            &&& t.entry_func_spec() == entry
            &&& t.mem_regions_spec().len() == 1
            &&& t.mem_regions_spec()[0].name_spec() == stack_name_spec(name@)
            &&& t.mem_regions_spec()[0].typ_spec() == RegionType::Stack
            &&& t.mem_regions_spec()[0].access_spec() == access_of(crate::region::WRITABLE | 1 | crate::region::NO_EXECUTE)
        },
{
    let ghost m0 = *manager;
    let stack_result = try_create_stack_thread(stack_name(&name), manager);
    let ghost sr = stack_result;
    proof {
        assert(kernel_region_allocation(m0, *manager, DEFAULT_STACK_SIZE, stack_name_spec(name@), RegionType::Stack, kernel_stack_flags(), sr));
    }
    let stack = match stack_result {
        Ok(stack) => stack,
        Err(e) => {
            return Err(e);
        },
    };
    let ghost s0 = *scheduler;
    let id = ThreadId::new(next_thread_id);
    let thread = Thread::new(id, name, process, cr3, stack, priority, entry);
    scheduler.add_thread(thread);
    proof {
        assert(scheduler.ready().drop_last() == s0.ready());
        assert(sr == Ok::<VirtualMemoryRegion, KernelError>(stack));
    }
    Ok(id)
}

/// A stack region named `name` of `DEFAULT_STACK_SIZE` bytes for a kernel
/// thread, writable and not executable, mapped at once: what
/// `kernel_region_allocation` says of such a region.
fn try_create_stack_thread(name: String, manager: &mut MemoryManager) -> (r: Result<VirtualMemoryRegion, KernelError>)
    requires
        old(manager).kernel_page_table_spec() is Some,
        old(manager).region_tree_spec().wf(),
    ensures
        kernel_region_allocation(*old(manager), *final(manager), DEFAULT_STACK_SIZE, name@, RegionType::Stack, kernel_stack_flags(), r),
        final(manager).region_tree_spec().wf(),
        final(manager).kernel_page_table_spec() is Some,
        r matches Ok(region) ==> region.name_spec() == name@ && region.typ_spec() == RegionType::Stack
            && region.access_spec() == access_of(crate::region::WRITABLE | 1 | crate::region::NO_EXECUTE),
{
    let flags = PageTableEntryFlags::writable().union(PageTableEntryFlags::present()).union(
        PageTableEntryFlags::no_execute(),
    );
    let size = PageAlignedSize::new(DEFAULT_STACK_SIZE);
    manager.allocate_kernel_region_with_size(size, name, RegionType::Stack, flags, AllocationStrategy::AllocateNow)
}

} // verus!
