use miniature_os::allocator::buddy_allocator::{next_power_of_two, previous_power_of_two, BuddyAllocator, Chunk};
use miniature_os::allocator::{init_heap, HEAP_SIZE, HEAP_START};
use miniature_os::error::{KernelError, MemoryError};
use miniature_os::linked_list_frame_allocator::LinkedListFrameAllocator;
use miniature_os::manager::MemoryManager;
use miniature_os::memory::{
    FrameAllocator, Page, PageAlignedSize, PageRangeInclusive, PhysicalAddress, PhysicalFrame, PhysicalMemoryRegion,
    PhysicalMemoryRegionType, Size4KiB, VirtualAddress,
};
use miniature_os::offset_page_table::{OffsetPageTable, PhysicalOffset};
use miniature_os::paging::{PageTable, PageTableEntryFlags, Translator};
use miniature_os::region::{AccessFlags, PlacingStrategy, RegionTree, RegionType};
use miniature_os::virtual_memory_object::{AllocationStrategy, MemoryBackedVirtualMemoryObject, VirtualMemoryObject};
use std::collections::BTreeMap;

const OFFSET: u64 = 0xffff_8000_0000_0000;

fn page(address: u64) -> Page<Size4KiB> {
    Page::containing_address(VirtualAddress::new(address))
}

fn memory_map() -> Vec<PhysicalMemoryRegion> {
    vec![
        PhysicalMemoryRegion::new(0, 0x10_0000, PhysicalMemoryRegionType::Reserved),
        PhysicalMemoryRegion::new(0x10_0000, 0x40_0000, PhysicalMemoryRegionType::Free),
    ]
}

fn kernel_stack() -> PageRangeInclusive<Size4KiB> {
    PageRangeInclusive::new(page(0xffff_ff00_0000_0000), page(0xffff_ff00_0000_f000))
}

fn kernel_image() -> PageRangeInclusive<Size4KiB> {
    PageRangeInclusive::new(page(0xffff_ffff_8000_0000), page(0xffff_ffff_8010_0000))
}

fn manager() -> (MemoryManager, BuddyAllocator) {
    let mut m = MemoryManager::new();
    let mut heap = BuddyAllocator::new();
    m.init(
        memory_map(),
        OFFSET as usize,
        PhysicalFrame::containing_address(PhysicalAddress::new(0x1000)),
        PageTable::empty(),
        BTreeMap::new(),
        kernel_stack(),
        kernel_image(),
        &mut heap,
    )
    .unwrap();
    (m, heap)
}

#[test]
fn powers_of_two() {
    assert_eq!(next_power_of_two(1), 1);
    assert_eq!(next_power_of_two(24), 32);
    assert_eq!(next_power_of_two(4096), 4096);
    assert_eq!(previous_power_of_two(4097), 4096);
    assert_eq!(previous_power_of_two(1), 1);
}

#[test]
fn buddy_allocator_hands_out_aligned_blocks_and_takes_them_back() {
    let mut heap = BuddyAllocator::new();
    heap.init(VirtualAddress::new(0x10_0000), 0x1_0000);
    let a = heap.allocate(100, 8).unwrap();
    assert_eq!(a.size(), 128);
    assert_eq!(a.start() % 128, 0);
    assert!(a.start() >= 0x10_0000 && a.start() + 128 <= 0x11_0000);
    let b = heap.allocate(4096, 4096).unwrap();
    assert_eq!(b.size(), 4096);
    assert_eq!(b.start() % 4096, 0);
    assert!(a.start() + 128 <= b.start() || b.start() + 4096 <= a.start());
    heap.dealloc(a);
    heap.dealloc(b);
    // Merged back: the whole range is one block again.
    let c = heap.allocate(0x1_0000, 8).unwrap();
    assert_eq!(c.start(), 0x10_0000);
    assert!(heap.allocate(8, 8).is_none());
}

#[test]
fn buddy_blocks_handed_out_do_not_overlap() {
    let mut heap = BuddyAllocator::new();
    heap.init(VirtualAddress::new(0x10_0000), 0x1_0000);
    let sizes = [24usize, 100, 4096, 64, 0x2000, 500, 24];
    let mut blocks = Vec::new();
    for size in sizes {
        let c = heap.allocate(size, 8).unwrap();
        assert!(c.size() >= size);
        assert!(c.start() >= 0x10_0000 && c.start() + c.size() as u64 <= 0x11_0000);
        blocks.push((c.start(), c.size()));
    }
    for (i, &(s1, n1)) in blocks.iter().enumerate() {
        for &(s2, n2) in &blocks[i + 1..] {
            assert!(s1 + n1 as u64 <= s2 || s2 + n2 as u64 <= s1);
        }
    }
}

#[test]
fn buddy_allocator_refuses_when_empty() {
    let mut heap = BuddyAllocator::new();
    assert!(heap.allocate(8, 8).is_none());
    let chunk = Chunk::new(0x2000, 64);
    assert_eq!(chunk.address(), 0x2000);
}

#[test]
fn heap_is_mapped_and_given_to_the_allocator() {
    let mut frames = LinkedListFrameAllocator::new();
    frames.init(memory_map(), OFFSET as usize);
    let mut pt = OffsetPageTable::new(PageTable::empty(), PhysicalOffset::new(OFFSET), BTreeMap::new());
    let mut heap = BuddyAllocator::new();
    let range = init_heap(&mut pt, &mut frames, &mut heap).unwrap();
    assert_eq!(range.start_page.address.0, HEAP_START);
    assert_eq!(range.end_page.address.0, HEAP_START + HEAP_SIZE as u64 - 0x1000);
    assert!(pt.translate(page(HEAP_START)).is_ok());
    assert!(pt.translate(page(HEAP_START + HEAP_SIZE as u64 - 0x1000)).is_ok());
    assert!(pt.translate(page(HEAP_START + HEAP_SIZE as u64)).is_err());
    let chunk = heap.allocate(64, 8).unwrap();
    assert!(chunk.start() >= HEAP_START && chunk.start() + 64 <= HEAP_START + HEAP_SIZE as u64);
}

#[test]
fn heap_needs_frames() {
    let mut frames = LinkedListFrameAllocator::new();
    let mut pt = OffsetPageTable::new(PageTable::empty(), PhysicalOffset::new(OFFSET), BTreeMap::new());
    let mut heap = BuddyAllocator::new();
    let r = init_heap(&mut pt, &mut frames, &mut heap);
    assert!(matches!(r, Err(KernelError::MemoryError(MemoryError::OutOfPhysicalMemory))));
    assert!(heap.allocate(8, 8).is_none());
}

#[test]
fn linked_list_frame_allocator_hands_out_usable_frames_last_first() {
    let mut frames = LinkedListFrameAllocator::new();
    frames.init(memory_map(), OFFSET as usize);
    let first = frames.allocate_frame().unwrap();
    assert_eq!(first.address.0, 0x4f_f000);
    let second = frames.allocate_frame().unwrap();
    assert_eq!(second.address.0, 0x4f_e000);
    frames.deallocate_frame(first);
    assert_eq!(frames.allocate_frame().unwrap().address.0, 0x4f_f000);
}

#[test]
fn manager_takes_frames_in_order() {
    let (mut m, _heap) = manager();
    let frames = m.try_allocate_frames(3).unwrap();
    assert_eq!(frames.len(), 3);
    assert_eq!(frames[0].address.0, frames[1].address.0 + 0x1000);
    assert_eq!(frames[1].address.0, frames[2].address.0 + 0x1000);
    assert!(matches!(m.try_allocate_frames(0x1_0000), Err(MemoryError::OutOfPhysicalMemory)));
    assert!(matches!(m.try_allocate_frames(1), Err(MemoryError::OutOfPhysicalMemory)));
}

#[test]
fn manager_records_kernel_regions() {
    let (mut m, mut heap) = manager();
    assert_eq!(m.kernel_pml4t().address.0, 0x1000);
    assert!(m.kernel_page_table().translate(page(HEAP_START)).is_ok());
    assert!(heap.allocate(32, 8).is_some());
    let tree = m.region_tree();
    // The heap and the kernel's stack and image are taken already.
    let r = tree.try_allocate_range_in_region("again".to_string(), RegionType::Stack, kernel_stack());
    assert!(r.is_ok());
    let r = tree.try_allocate_range_in_region("twice".to_string(), RegionType::Stack, kernel_stack());
    assert!(matches!(r, Err(MemoryError::InvalidRange)));
}

#[test]
fn kernel_regions_are_mapped_to_fresh_frames() {
    let (mut m, _heap) = manager();
    let flags = PageTableEntryFlags::present().union(PageTableEntryFlags::writable()).union(PageTableEntryFlags::no_execute());
    let region = m
        .allocate_kernel_region_with_size(PageAlignedSize::new(0x3000), "buffer".to_string(), RegionType::Stack, flags, AllocationStrategy::AllocateNow)
        .unwrap();
    assert_eq!(region.typ(), RegionType::Stack);
    assert_eq!(region.access_flags(), AccessFlags::ReadWrite);
    let range = *region.page_range();
    assert_eq!(range.end_page.address.0 - range.start_page.address.0, 0x2000);
    for i in 0..3u64 {
        let (frame, fl) = m.kernel_page_table().translate(page(range.start_page.address.0 + i * 0x1000)).unwrap();
        assert_eq!(frame.address.0 % 0x1000, 0);
        assert_eq!(fl.bits() & 0x8000_0000_0000_0003, 0x8000_0000_0000_0003);
    }
    let none = m.allocate_kernel_region_with_size(PageAlignedSize::new(0), "empty".to_string(), RegionType::Stack, flags, AllocationStrategy::AllocateNow);
    assert!(matches!(none, Err(KernelError::MemoryError(MemoryError::InvalidSize))));
    let missing = m.allocate_kernel_region_with_size(PageAlignedSize::new(0x1000), "x".to_string(), RegionType::Other, flags, AllocationStrategy::AllocateNow);
    assert!(matches!(missing, Err(KernelError::MemoryError(MemoryError::Other))));
}

#[test]
fn region_tree_allocates_and_frees_by_name() {
    let mut tree = RegionTree::new();
    tree.add_region(RegionType::Heap, PageRangeInclusive::new(page(0x10_0000), page(0x1f_f000)));
    let a = tree.try_allocate_size_in_region("a".to_string(), RegionType::Heap, PageAlignedSize::new(0x2000), PlacingStrategy::Anywhere).unwrap();
    assert_eq!(a.start_page.address.0, 0x10_0000);
    assert_eq!(a.end_page.address.0, 0x10_1000);
    let b = tree.try_allocate_size_in_region("b".to_string(), RegionType::Heap, PageAlignedSize::new(0x1000), PlacingStrategy::Anywhere).unwrap();
    assert_eq!(b.start_page.address.0, 0x10_2000);
    let freed = tree.try_deallocate_from_region(RegionType::Heap, &"a".to_string()).unwrap();
    assert_eq!(freed.start_page.address.0, 0x10_0000);
    assert!(matches!(tree.try_deallocate_from_region(RegionType::Heap, &"a".to_string()), Err(MemoryError::InvalidRegion)));
    assert!(matches!(
        tree.try_allocate_size_in_region("c".to_string(), RegionType::Stack, PageAlignedSize::new(0x1000), PlacingStrategy::Anywhere),
        Err(MemoryError::Other)
    ));
    assert!(matches!(
        tree.try_allocate_size_in_region("d".to_string(), RegionType::Heap, PageAlignedSize::new(0x20_0000), PlacingStrategy::Anywhere),
        Err(MemoryError::OutOfVirtualMemory)
    ));
}

#[test]
fn region_allocations_do_not_overlap() {
    let mut tree = RegionTree::new();
    tree.add_region(RegionType::Heap, PageRangeInclusive::new(page(0x10_0000), page(0x10_7000)));
    tree.try_allocate_range_in_region("fixed".to_string(), RegionType::Heap, PageRangeInclusive::new(page(0x10_2000), page(0x10_3000)))
        .unwrap();
    assert!(matches!(
        tree.try_allocate_range_in_region("clash".to_string(), RegionType::Heap, PageRangeInclusive::new(page(0x10_3000), page(0x10_4000))),
        Err(MemoryError::InvalidRange)
    ));
    let a = tree.try_allocate_size_in_region("a".to_string(), RegionType::Heap, PageAlignedSize::new(0x3000), PlacingStrategy::Anywhere).unwrap();
    assert_eq!(a.start_page.address.0, 0x10_4000);
    assert_eq!(a.end_page.address.0, 0x10_6000);
    let b = tree.try_allocate_size_in_region("b".to_string(), RegionType::Heap, PageAlignedSize::new(0x2000), PlacingStrategy::Anywhere).unwrap();
    assert_eq!(b.start_page.address.0, 0x10_0000);
    assert_eq!(b.end_page.address.0, 0x10_1000);
    assert!(matches!(
        tree.try_allocate_size_in_region("c".to_string(), RegionType::Heap, PageAlignedSize::new(0x2000), PlacingStrategy::Anywhere),
        Err(MemoryError::OutOfVirtualMemory)
    ));
}

#[test]
fn memory_object_size_counts_pages() {
    let frames = vec![PhysicalFrame::<Size4KiB>::containing_address(PhysicalAddress::new(0x1000)); 3];
    let obj = MemoryBackedVirtualMemoryObject::create_with_frames(frames, AllocationStrategy::AllocateNow).unwrap();
    assert_eq!(obj.size().in_bytes(), 0x3000);
    assert_eq!(obj.frames().len(), 3);
    assert_eq!(PageAlignedSize::new(1).inner(), 0x1000);
    assert_eq!(PageAlignedSize::new(0x1000).inner(), 0x1000);
}

#[test]
fn freed_buddies_merge_back() {
    let mut heap = BuddyAllocator::new();
    heap.init(VirtualAddress::new(0x10_0000), 0x1_0000);
    let c1 = heap.allocate(0x100, 8).unwrap();
    let c2 = heap.allocate(0x100, 8).unwrap();
    let addr = u64::min(c1.start(), c2.start());
    heap.dealloc(c1);
    heap.dealloc(c2);
    let c3 = heap.allocate(0x200, 8).unwrap();
    assert_eq!(c3.start(), addr);
    heap.dealloc(c3);
    let c4 = heap.allocate(0x400, 8).unwrap();
    assert_eq!(c4.start() % 0x400, 0);
}
