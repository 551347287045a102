use miniature_os::address_space::AddressSpace;
use miniature_os::linked_list_frame_allocator::LinkedListFrameAllocator;
use miniature_os::memory::{
    FrameAllocator, Page, PageAlignedSize, PhysicalAddress, PhysicalFrame, PhysicalMemoryRegion, PhysicalMemoryRegionType, Size2MiB,
    Size4KiB, VirtualAddress,
};
use miniature_os::offset_page_table::{OffsetPageTable, PhysicalOffset};
use miniature_os::paging::{
    Mapper, MappingError, PageTable, PageTableEntry, PageTableEntryFlags, Translator, UnmappingError,
};
use std::collections::BTreeMap;

const OFFSET: u64 = 0xffff_8000_0000_0000;

fn frames() -> LinkedListFrameAllocator {
    let mut allocator = LinkedListFrameAllocator::new();
    allocator.init(vec![PhysicalMemoryRegion::new(0x10_0000, 0x10_0000, PhysicalMemoryRegionType::Free)], OFFSET as usize);
    allocator
}

fn table() -> OffsetPageTable<PhysicalOffset> {
    OffsetPageTable::new(PageTable::empty(), PhysicalOffset::new(OFFSET), BTreeMap::new())
}

#[test]
fn flags_combine_and_test() {
    let rw = PageTableEntryFlags::present().union(PageTableEntryFlags::writable());
    assert_eq!(rw.bits(), 3);
    assert!(rw.contains(PageTableEntryFlags::writable()));
    assert!(!rw.contains(PageTableEntryFlags::no_execute()));
    assert_eq!((rw | PageTableEntryFlags::no_execute()).bits(), 0x8000_0000_0000_0003);
    let mut f = rw;
    f.remove(PageTableEntryFlags::present());
    assert_eq!(f.bits(), 2);
    assert!(PageTableEntryFlags::none().is_empty());
}

#[test]
fn entry_holds_address_and_flags() {
    let mut e = PageTableEntry::new(0);
    assert!(e.is_unused());
    e.set_address(PhysicalAddress::new(0x1234_5000), PageTableEntryFlags::present().union(PageTableEntryFlags::writable()));
    assert!(e.is_present());
    assert_eq!(e.address().0, 0x1234_5000);
    assert_eq!(e.flags().bits(), 3);
    e.set_unused();
    assert!(e.is_unused());
}

#[test]
fn map_then_translate_gives_the_frame_back() {
    let mut allocator = frames();
    let mut pt = table();
    let page: Page<Size4KiB> = Page::containing_address(VirtualAddress::new(0x4000_1000));
    let frame: PhysicalFrame<Size4KiB> = PhysicalFrame::containing_address(PhysicalAddress::new(0x30_0000));
    let flags = PageTableEntryFlags::present().union(PageTableEntryFlags::writable());
    let flusher = pt.map_to(frame, page, flags, &mut allocator).unwrap();
    assert_eq!(flusher.page().address.0, 0x4000_1000);
    let (f, fl) = pt.translate(page).unwrap();
    assert_eq!(f.address.0, 0x30_0000);
    assert_eq!(fl.bits(), 3);
    // Three tables were taken from the allocator: levels 3, 2 and 1.
    let mut left = 0;
    while allocator.allocate_frame().is_some() {
        left += 1;
    }
    assert_eq!(left, 256 - 3);
}

#[test]
fn mapping_a_mapped_page_is_refused() {
    let mut allocator = frames();
    let mut pt = table();
    let page: Page<Size4KiB> = Page::containing_address(VirtualAddress::new(0x7000));
    let frame: PhysicalFrame<Size4KiB> = PhysicalFrame::containing_address(PhysicalAddress::new(0x30_0000));
    let flags = PageTableEntryFlags::present();
    pt.map_to(frame, page, flags, &mut allocator).unwrap();
    let other: PhysicalFrame<Size4KiB> = PhysicalFrame::containing_address(PhysicalAddress::new(0x31_0000));
    assert!(matches!(pt.map_to(other, page, flags, &mut allocator), Err(MappingError::PageAlreadyMapped)));
    assert_eq!(pt.translate(page).unwrap().0.address.0, 0x30_0000);
}

#[test]
fn mapping_without_frames_fails() {
    let mut allocator = LinkedListFrameAllocator::new();
    let mut pt = table();
    let page: Page<Size4KiB> = Page::containing_address(VirtualAddress::new(0x7000));
    let frame: PhysicalFrame<Size4KiB> = PhysicalFrame::containing_address(PhysicalAddress::new(0x30_0000));
    assert!(matches!(
        pt.map_to(frame, page, PageTableEntryFlags::present(), &mut allocator),
        Err(MappingError::FrameAllocationFailed)
    ));
}

#[test]
fn unmap_then_translate_fails() {
    let mut allocator = frames();
    let mut pt = table();
    let page: Page<Size4KiB> = Page::containing_address(VirtualAddress::new(0x7000));
    let frame: PhysicalFrame<Size4KiB> = PhysicalFrame::containing_address(PhysicalAddress::new(0x30_0000));
    pt.map_to(frame, page, PageTableEntryFlags::present(), &mut allocator).unwrap();
    assert!(Mapper::<Size4KiB>::unmap(&mut pt, page).is_ok());
    assert!(pt.translate(page).is_err());
    assert!(matches!(Mapper::<Size4KiB>::unmap(&mut pt, page), Err(UnmappingError::PageNotMapped)));
}

#[test]
fn huge_pages_map_and_translate() {
    let mut allocator = frames();
    let mut pt = table();
    let page: Page<Size2MiB> = Page::containing_address(VirtualAddress::new(0x4020_0000));
    let frame: PhysicalFrame<Size2MiB> = PhysicalFrame::containing_address(PhysicalAddress::new(0x4000_0000));
    pt.map_to(frame, page, PageTableEntryFlags::present(), &mut allocator).unwrap();
    let (f, fl) = pt.translate(page).unwrap();
    assert_eq!(f.address.0, 0x4000_0000);
    assert_eq!(fl.bits() & 0x81, 0x81);
}

#[test]
fn address_space_maps_and_unmaps() {
    let mut allocator = frames();
    let mut space = AddressSpace::new(0x1000, OFFSET as usize, PageTable::empty(), BTreeMap::new());
    assert_eq!(space.cr3(), 0x1000);
    let page: Page<Size4KiB> = Page::containing_address(VirtualAddress::new(0x5000_0000));
    assert!(!space.has_leaf_table(page));
    let frame: PhysicalFrame<Size4KiB> = PhysicalFrame::containing_address(PhysicalAddress::new(0x30_0000));
    space.map_to(frame, page, PageTableEntryFlags::present(), &mut allocator).unwrap();
    assert!(space.has_leaf_table(page));
    assert!(space.unmap(page).is_ok());
    assert!(matches!(space.unmap(page), Err(UnmappingError::PageNotMapped)));
}

#[test]
fn virtual_address_indices() {
    let a = VirtualAddress::new(0x0000_7fff_ffff_f000);
    assert_eq!(a.l4_index(), 255);
    assert_eq!(a.l3_index(), 511);
    assert_eq!(a.l2_index(), 511);
    assert_eq!(a.l1_index(), 511);
    let b = VirtualAddress::new(0x4020_3000);
    assert_eq!(b.l4_index(), 0);
    assert_eq!(b.l3_index(), 1);
    assert_eq!(b.l2_index(), 1);
    assert_eq!(b.l1_index(), 3);
}

#[test]
fn addresses_round_up_to_their_alignment() {
    assert_eq!(PhysicalAddress::new(0x1234).align_up(0x1000), PhysicalAddress::new(0x2000));
    assert_eq!(PhysicalAddress::new(0x2000).align_up(0x1000), PhysicalAddress::new(0x2000));
    let top = u64::MAX - 0xfff;
    assert_eq!(PhysicalAddress::new(top).align_up(0x1000), PhysicalAddress::new(top));
    assert_eq!(VirtualAddress::new(top).align_up(0x1000), VirtualAddress::new(top));
    assert_eq!(VirtualAddress::new(0x1001).align_up(0x1000), VirtualAddress::new(0x2000));
}

#[test]
fn sizes_round_up_to_whole_pages() {
    assert_eq!(PageAlignedSize::align_up(0), 0);
    assert_eq!(PageAlignedSize::align_up(1), 0x1000);
    assert_eq!(PageAlignedSize::align_up(0x1000), 0x1000);
    assert_eq!(PageAlignedSize::align_up(0x1001), 0x2000);
    assert_eq!(PageAlignedSize::align_up(usize::MAX - 0xfff), usize::MAX - 0xfff);
}
