use miniature_os::address_space::AddressSpace;
use miniature_os::error::KernelError;
use miniature_os::idt::PageFaultErrorCode;
use miniature_os::manager::MemoryManager;
use miniature_os::memory::{
    Page, PageRangeInclusive, PhysicalAddress, PhysicalFrame, PhysicalMemoryRegion, PhysicalMemoryRegionType, Size4KiB,
    VirtualAddress,
};
use miniature_os::multitasking::housekeeping_threads::{reap_dying_threads, spawn_finalizer_thread, spawn_idle_thread};
use miniature_os::multitasking::process::{init, spawn_kernel_thread, Process, ProcessId, ProcessTree, ThreadId};
use miniature_os::multitasking::scheduler::{Scheduler, ThreadEntry};
use miniature_os::multitasking::thread::{Thread, ThreadPriority, ThreadRegisterState, ThreadRunState};
use miniature_os::allocator::buddy_allocator::BuddyAllocator;
use miniature_os::paging::{PageTable, PageTableEntryFlags, UnmappingError};
use miniature_os::region::{AccessFlags, RegionType, VirtualMemoryRegion};
use miniature_os::virtual_memory_object::MemoryBackedVirtualMemoryObject;
use std::collections::BTreeMap;

const OFFSET: u64 = 0xffff_8000_0000_0000;

fn page(address: u64) -> Page<Size4KiB> {
    Page::containing_address(VirtualAddress::new(address))
}

fn region(start: u64, pages: u64, typ: RegionType) -> VirtualMemoryRegion {
    VirtualMemoryRegion::new(
        PageRangeInclusive::new(page(start), page(start + (pages - 1) * 0x1000)),
        "stack".to_string(),
        MemoryBackedVirtualMemoryObject::new(Vec::new()),
        typ,
        AccessFlags::ReadWrite,
    )
}

fn thread(id: u64, cr3: u64, start: u64) -> Thread {
    let mut next = id;
    let mut pid_next = 7;
    Thread::new(
        ThreadId::new(&mut next),
        format!("t{}", id),
        ProcessId::new(&mut pid_next),
        cr3,
        region(start, 4, RegionType::Stack),
        ThreadPriority::Normal,
        0x1234,
    )
}

fn manager_with_frames() -> MemoryManager {
    let mut m = MemoryManager::new();
    let mut heap = BuddyAllocator::new();
    m.init(
        vec![PhysicalMemoryRegion::new(0x10_0000, 0x40_0000, PhysicalMemoryRegionType::Free)],
        OFFSET as usize,
        PhysicalFrame::containing_address(PhysicalAddress::new(0x1000)),
        PageTable::empty(),
        BTreeMap::new(),
        PageRangeInclusive::new(page(0xffff_ff00_0000_0000), page(0xffff_ff00_0000_f000)),
        PageRangeInclusive::new(page(0xffff_ffff_8000_0000), page(0xffff_ffff_8010_0000)),
        &mut heap,
    )
    .unwrap();
    m
}

#[test]
fn ids_count_up() {
    let mut next = 5;
    let a = ProcessId::new(&mut next);
    let b = ProcessId::new(&mut next);
    assert_eq!(a.as_u64(), 5);
    assert_eq!(b.as_u64(), 6);
    assert_eq!(next, 7);
    let mut last = u64::MAX;
    assert_eq!(ThreadId::new(&mut last).as_u64(), u64::MAX);
    assert_eq!(last, 0);
}

#[test]
fn process_tree_records_processes() {
    let mut next = 0;
    let id = ProcessId::new(&mut next);
    let space = AddressSpace::new(0x5000, OFFSET as usize, PageTable::empty(), BTreeMap::new());
    let mut process = Process::new("init".to_string(), id, space);
    assert_eq!(process.id(), id);
    assert_eq!(process.address_space().cr3(), 0x5000);
    let mut tree = ProcessTree::new();
    tree.add_process(id, process);
}

#[test]
fn thread_starts_ready_and_can_change_state() {
    let mut t = thread(3, 0x9000, 0x10_0000);
    assert_eq!(t.name(), "t3");
    assert_eq!(t.cr3(), 0x9000);
    assert_eq!(t.last_stack_ptr(), 0);
    *t.last_stack_ptr_mut() = 0x1_0000;
    assert_eq!(t.last_stack_ptr(), 0x1_0000);
    t.set_state(ThreadRunState::Blocked);
    assert!(t.finalize().is_ok());
}

#[test]
fn stack_is_laid_out_for_the_first_run() {
    let mut t = thread(1, 0x9000, 0x10_0000);
    let image = t.setup_stack(0xdead);
    assert_eq!(image.bottom, 0x10_1000);
    assert_eq!(image.top, 0x10_4000);
    assert_eq!(image.rsp, 0x10_4000 - 160);
    assert_eq!(image.words.len(), 20);
    assert_eq!(image.words[10], image.rsp);
    assert_eq!(image.words[11], image.rsp);
    assert_eq!(image.words[16], 0x1200);
    assert_eq!(image.words[17], 0x1234);
    assert_eq!(image.words[18], 0xdead);
    assert_eq!(image.words[19], 0xDEAD_CAFE_BEEF_BABE);
    assert_eq!(t.last_stack_ptr(), image.rsp);
    let regs = ThreadRegisterState { rip: 5, ..Default::default() };
    assert_eq!(regs.words()[17], 5);
}

#[test]
fn scheduler_takes_turns() {
    let mut s = Scheduler::new();
    assert!(s.schedule().is_none());
    s.init(thread(0, 0x1000, 0x10_0000));
    s.add_thread(thread(1, 0x2000, 0x20_0000));
    s.add_thread(thread(2, 0x3000, 0x30_0000));
    let sw = s.schedule().unwrap();
    assert_eq!((sw.old_cr3, sw.new_cr3, sw.new_rsp), (0x1000, 0x2000, 0));
    assert_eq!(s.current_thread().name(), "t1");
    let sw = s.schedule().unwrap();
    assert_eq!((sw.old_cr3, sw.new_cr3), (0x2000, 0x3000));
    let sw = s.schedule().unwrap();
    assert_eq!((sw.old_cr3, sw.new_cr3), (0x3000, 0x1000));
    assert_eq!(s.current_thread().name(), "t0");
}

#[test]
fn finished_thread_is_torn_down() {
    let mut s = Scheduler::new();
    s.init(thread(0, 0x1000, 0x10_0000));
    s.add_thread(thread(1, 0x2000, 0x20_0000));
    s.finish_current_thread();
    s.schedule().unwrap();
    assert_eq!(s.current_thread().name(), "t1");
    // Nobody else is ready: the finished thread does not come back.
    assert!(s.schedule().is_none());
    let consumer = s.consume_dying_threads().unwrap();
    assert!(s.consume_dying_threads().is_none());
    assert_eq!(reap_dying_threads(&mut s, &consumer), 1);
    assert_eq!(reap_dying_threads(&mut s, &consumer), 0);
    assert!(s.take_dying_thread(&consumer).is_none());
    let mut entry = ThreadEntry::new(thread(9, 0, 0x10_0000));
    assert!(entry.finalize().is_ok());
    let _stub = ThreadEntry::new_const();
}

#[test]
fn reaping_takes_at_most_three() {
    let mut s = Scheduler::new();
    s.init(thread(0, 0x1000, 0x10_0000));
    for i in 1..6 {
        s.add_thread(thread(i, 0x1000, 0x10_0000));
        s.finish_current_thread();
        s.schedule().unwrap();
    }
    let consumer = s.consume_dying_threads().unwrap();
    assert_eq!(reap_dying_threads(&mut s, &consumer), 3);
    assert_eq!(reap_dying_threads(&mut s, &consumer), 2);
}

#[test]
fn current_thread_can_be_changed() {
    let mut s = Scheduler::new();
    s._init(thread(0, 0x1000, 0x10_0000));
    s.current_thread_mut().set_state(ThreadRunState::Running);
    *s.current_thread_mut().last_stack_ptr_mut() = 77;
    assert_eq!(s.current_thread().last_stack_ptr(), 77);
}

#[test]
fn page_fault_outside_regions_or_on_present_pages_is_refused() {
    let mut m = manager_with_frames();
    let mut space = AddressSpace::new(0x5000, OFFSET as usize, PageTable::empty(), BTreeMap::new());
    let mut t = thread(1, 0x5000, 0x4000_0000);
    let inside = VirtualAddress::new(0x4000_2000);
    let r = t.handle_page_fault(inside, PageFaultErrorCode::from_bits_truncate(1), &mut m, &mut space, 0);
    assert!(matches!(r, Err(KernelError::Other)));
    let outside = VirtualAddress::new(0x5000_0000);
    let r = t.handle_page_fault(outside, PageFaultErrorCode::from_bits_truncate(0), &mut m, &mut space, 0);
    assert!(matches!(r, Err(KernelError::Other)));
    // The region's pages have no page tables yet.
    let r = t.handle_page_fault(inside, PageFaultErrorCode::from_bits_truncate(2), &mut m, &mut space, 0);
    assert!(matches!(r, Err(KernelError::PagingUnmappingError(UnmappingError::PageNotMapped))));
}

#[test]
fn page_fault_on_a_stack_maps_it_and_lays_it_out() {
    let mut m = manager_with_frames();
    let mut space = AddressSpace::new(0x5000, OFFSET as usize, PageTable::empty(), BTreeMap::new());
    let flags = PageTableEntryFlags::present();
    // The stack's pages are mapped somewhere first.
    for i in 1..4u64 {
        let frame = PhysicalFrame::containing_address(PhysicalAddress::new(0x8000_0000 + i * 0x1000));
        space.map_to(frame, page(0x4000_0000 + i * 0x1000), flags, m.frame_allocator()).unwrap();
    }
    let mut t = thread(1, 0x5000, 0x4000_0000);
    let r = t.handle_page_fault(VirtualAddress::new(0x4000_1008), PageFaultErrorCode::from_bits_truncate(2), &mut m, &mut space, 0xbeef);
    let image = r.unwrap().unwrap();
    assert_eq!(image.rsp, 0x4000_4000 - 160);
    assert_eq!(image.words[18], 0xbeef);
    assert_eq!(t.last_stack_ptr(), image.rsp);
    // Mapping them again is refused: they are mapped to the new frames.
    let frame = PhysicalFrame::containing_address(PhysicalAddress::new(0x9000_0000));
    assert!(space.map_to(frame, page(0x4000_1000), flags, m.frame_allocator()).is_err());
}

#[test]
fn faults_in_a_stack_need_a_page_past_the_guard() {
    let t = thread(1, 0x5000, 0x4000_0000);
    assert!(t.can_serve_fault(VirtualAddress::new(0x4000_1008)));
    assert!(t.can_serve_fault(VirtualAddress::new(0x5000_0000)));
    let mut next = 2;
    let mut pid_next = 7;
    let small = Thread::new(
        ThreadId::new(&mut next),
        "small".to_string(),
        ProcessId::new(&mut pid_next),
        0x5000,
        region(0x4000_0000, 1, RegionType::Stack),
        ThreadPriority::Normal,
        0x1234,
    );
    assert!(!small.can_serve_fault(VirtualAddress::new(0x4000_0008)));
    assert!(small.can_serve_fault(VirtualAddress::new(0x5000_0000)));
}

#[test]
fn kernel_threads_join_the_line() {
    let mut m = manager_with_frames();
    let mut s = Scheduler::new();
    let mut next_thread = 10;
    let mut next_process = 0;
    let pid = ProcessId::new(&mut next_process);
    let id = spawn_kernel_thread("worker".to_string(), 0x4444, ThreadPriority::High, pid, 0x5000, &mut next_thread, &mut m, &mut s).unwrap();
    assert_eq!(id.as_u64(), 10);
    let idle = spawn_idle_thread(0x5555, pid, 0x5000, &mut next_thread, &mut m, &mut s).unwrap();
    assert_eq!(idle.as_u64(), 11);
    let fin = spawn_finalizer_thread(0x6666, pid, 0x5000, &mut next_thread, &mut m, &mut s).unwrap();
    assert_eq!(fin.as_u64(), 12);
    s._init(thread(0, 0x1000, 0x10_0000));
    s.schedule().unwrap();
    assert_eq!(s.current_thread().name(), "worker");
    s.schedule().unwrap();
    assert_eq!(s.current_thread().name(), "Idle");
    s.schedule().unwrap();
    assert_eq!(s.current_thread().name(), "Finalizer");
}

#[test]
fn multitasking_starts_with_the_colonel_thread() {
    let mut m = manager_with_frames();
    let mut s = Scheduler::new();
    let mut tree = ProcessTree::new();
    let mut next_process = 0;
    let mut next_thread = 0;
    let space = AddressSpace::new(0x5000, OFFSET as usize, PageTable::empty(), BTreeMap::new());
    // The boot stack is mapped in the kernel's page table.
    let stack = PageRangeInclusive::new(page(0xffff_ff00_0000_0000), page(0xffff_ff00_0000_f000));
    let r = init(&mut tree, &mut m, &mut s, &mut next_process, &mut next_thread, space, stack);
    // Its pages are not mapped in this test's page table.
    assert!(matches!(r, Err(KernelError::PagingTranslationError(_))));
    assert_eq!(next_process, 1);
}
