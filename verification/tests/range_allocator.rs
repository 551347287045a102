use core::ops::Range;
use miniature_os::range_allocator::RangeAllocator;

#[test]
fn test_range_allocator_size() {
    let intial_range = Range { start: 0, end: 1000 };
    let mut allocator = RangeAllocator::new(intial_range);

    let a0 = allocator.try_allocate_size(1000).unwrap();
    assert_eq!(a0, Range { start: 0, end: 1000 });

    assert_eq!(allocator.deallocate_range(a0), true);

    let a1 = allocator.try_allocate_size(200).unwrap();
    assert_eq!(a1, Range { start: 0, end: 200 });
    let a2 = allocator.try_allocate_size(200).unwrap();
    assert_eq!(a2, Range { start: 200, end: 400 });
    let a3 = allocator.try_allocate_size(200).unwrap();
    assert_eq!(a3, Range { start: 400, end: 600 });
    let a4 = allocator.try_allocate_size(100).unwrap();
    assert_eq!(a4, Range { start: 600, end: 700 });
    let a5 = allocator.try_allocate_size(200).unwrap();
    assert_eq!(a5, Range { start: 700, end: 900 });

    assert_eq!(allocator.deallocate_range(a2), true);
    assert_eq!(allocator.deallocate_range(a4), true);

    let a4_new = allocator.try_allocate_size(100).unwrap();
    assert_eq!(a4_new, Range { start: 600, end: 700 });
    let a2_new = allocator.try_allocate_size(200).unwrap();
    assert_eq!(a2_new, Range { start: 200, end: 400 });

    let a6 = allocator.try_allocate_size(100).unwrap();
    assert_eq!(a6, Range { start: 900, end: 1000 });

    let a7 = allocator.try_allocate_size(1);
    assert_eq!(a7, None);
}

#[test]
fn test_range_allocator_range() {
    let intial_range = Range { start: 0, end: 1000 };
    let mut allocator = RangeAllocator::new(intial_range);

    let r1 = Range { start: 0, end: 1000 };
    assert_eq!(allocator.try_allocate_range(r1.clone()), true);

    assert_eq!(allocator.deallocate_range(r1), true);

    let r2 = Range { start: 0, end: 400 };
    assert_eq!(allocator.try_allocate_range(r2.clone()), true);

    let r3 = Range { start: 700, end: 1000 };
    assert_eq!(allocator.try_allocate_range(r3.clone()), true);

    let r4 = Range { start: 500, end: 701 };
    assert_eq!(allocator.try_allocate_range(r4.clone()), false);

    let r5 = Range { start: 500, end: 600 };
    assert_eq!(allocator.try_allocate_range(r5.clone()), true);

    assert_eq!(allocator.deallocate_range(r5), true);

    let r6 = Range { start: 400, end: 700 };
    assert_eq!(allocator.try_allocate_range(r6.clone()), true);
}

#[test]
fn range_allocator_refuses_foreign_ranges() {
    let mut allocator = RangeAllocator::new(Range { start: 100, end: 200 });
    assert_eq!(allocator.try_allocate_range(Range { start: 50, end: 150 }), false);
    assert_eq!(allocator.try_allocate_range(Range { start: 150, end: 201 }), false);
    assert_eq!(allocator.try_allocate_size(101), None);
    let a = allocator.try_allocate_size(100).unwrap();
    assert_eq!(a, Range { start: 100, end: 200 });
    assert_eq!(allocator.deallocate_range(Range { start: 100, end: 150 }), false);
    assert_eq!(allocator.deallocate_range(Range { start: 100, end: 200 }), true);
    assert_eq!(allocator.deallocate_range(Range { start: 100, end: 200 }), false);
    assert!(RangeAllocator::ranges_overlap(&Range { start: 0, end: 10 }, &Range { start: 9, end: 20 }));
    assert!(!RangeAllocator::ranges_overlap(&Range { start: 0, end: 10 }, &Range { start: 10, end: 20 }));
}

#[test]
fn freed_range_can_be_taken_again() {
    let mut a = RangeAllocator::new(0x1000..0x9000);
    assert!(a.try_allocate_range(0x2000..0x3000));
    assert!(a.try_allocate_range(0x3000..0x5000));
    assert!(!a.try_allocate_range(0x2800..0x3800));
    assert!(a.deallocate_range(0x2000..0x3000));
    assert!(!a.deallocate_range(0x2000..0x3000));
    assert!(a.try_allocate_range(0x2000..0x3000));
}
