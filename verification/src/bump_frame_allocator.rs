//! A frame allocator that hands out the frames of the usable memory one
//! after the other and never takes one back.
use vstd::prelude::*;
use crate::memory::{
    frame_base, FrameAllocator, MemoryRegion, PhysicalAddress, PhysicalFrame, PhysicalMemoryRegion,
    PhysicalMemoryRegionType, Size4KiB,
};

verus! {

/// Every region ends within the address space.
pub open spec fn regions_fit(regions: Seq<PhysicalMemoryRegion>) -> bool {
    forall|i: int| 0 <= i < regions.len() ==> (#[trigger] regions[i]).start + regions[i].size <= u64::MAX
}

/// Number of 4 KiB steps from `start` that stay below `end`.
pub open spec fn step_count(start: u64, end: u64) -> nat {
    if start < end {
        ((end - start + 0xfff) / 0x1000) as nat
    } else {
        0
    }
}

/// The frames of a region: those holding `start`, `start + 4 KiB`, ... below its end.
pub open spec fn region_frames(r: PhysicalMemoryRegion) -> Seq<u64> {
    Seq::new(step_count(r.start, (r.start + r.size) as u64), |i: int| frame_base::<Size4KiB>((r.start + i * 0x1000) as u64))
}

/// The frames of the usable regions, region after region.
pub open spec fn usable_frames(regions: Seq<PhysicalMemoryRegion>) -> Seq<u64>
    decreases regions.len(),
{
    if regions.len() == 0 {
        Seq::empty()
    } else {
        (if regions[0].usable_spec() {
            region_frames(regions[0])
        } else {
            Seq::empty()
        }) + usable_frames(regions.drop_first())
    }
}

/// Address `a` lies in region `j` of `regions`, a region of free memory.
pub open spec fn in_free_region(regions: Seq<PhysicalMemoryRegion>, j: int, a: int) -> bool {
    &&& 0 <= j < regions.len()
    &&& regions[j].typ == PhysicalMemoryRegionType::Free
    &&& regions[j].start <= a < regions[j].start + regions[j].size
}

/// Only frames of free memory are handed out: each frame of
/// `usable_frames(regions)` starts on a 4 KiB boundary and holds an address
/// of a region of the memory map whose type is free; a frame of reserved
/// memory never is one of them.
pub proof fn lemma_usable_frames_are_free(regions: Seq<PhysicalMemoryRegion>, i: int)
    requires
        0 <= i < usable_frames(regions).len(),
    ensures
        usable_frames(regions)[i] % 0x1000 == 0,
        exists|j: int, a: int|
            #[trigger] in_free_region(regions, j, a) && usable_frames(regions)[i] <= a < usable_frames(regions)[i]
                + 0x1000,
    decreases regions.len(),
{
    let r0 = regions[0];
    let head = if r0.usable_spec() {
        region_frames(r0)
    } else {
        Seq::<u64>::empty()
    };
    let rest = usable_frames(regions.drop_first());
    assert(usable_frames(regions) == head + rest);
    if i < head.len() {
        let end = (r0.start + r0.size) as u64;
        let n = step_count(r0.start, end);
        assert(r0.start < end);
        assert(i * 0x1000 < end - r0.start) by (nonlinear_arith)
            requires
                0 <= i < n,
                n == (end - r0.start + 0xfff) / 0x1000,
                r0.start < end,
        ;
        let a = r0.start + i * 0x1000;
        assert(a < r0.start + r0.size);
        assert(head[i] == frame_base::<Size4KiB>(a as u64));
        assert(in_free_region(regions, 0, a));
    } else {
        lemma_usable_frames_are_free(regions.drop_first(), i - head.len());
        assert(usable_frames(regions)[i] == rest[i - head.len()]);
        let (j, a) = choose|j: int, a: int|
            #[trigger] in_free_region(regions.drop_first(), j, a) && rest[i - head.len()] <= a < rest[i - head.len()] + 0x1000;
        assert(regions.drop_first()[j] == regions[j + 1]);
        assert(in_free_region(regions, j + 1, a));
    }
}

/// The largest end of the regions.
pub open spec fn max_end(regions: Seq<PhysicalMemoryRegion>) -> u64
    decreases regions.len(),
{
    if regions.len() == 0 {
        0
    } else {
        let e = (regions[0].start + regions[0].size) as u64;
        let m = max_end(regions.drop_first());
        if regions.len() == 1 || e >= m {
            e
        } else {
            m
        }
    }
}

/// Index of the first region that contains `a` (its end included), or the length.
pub open spec fn first_containing(regions: Seq<PhysicalMemoryRegion>, a: u64) -> int
    decreases regions.len(),
{
    if regions.len() == 0 {
        0
    } else if regions[0].start <= a && a <= regions[0].start + regions[0].size {
        0
    } else {
        1 + first_containing(regions.drop_first(), a)
    }
}

/// A frame allocator over a memory map that hands out the `next` frame of
/// the usable regions each time.
pub struct BumpFrameAllocator {
    memory_map: Vec<PhysicalMemoryRegion>,
    next: usize,
}

impl BumpFrameAllocator {
    /// Every region of the map ends within the address space.
    #[verifier::type_invariant]
    spec fn inv(&self) -> bool {
        regions_fit(self.memory_map@)
    }

    /// The memory map.
    pub closed spec fn memory_map(&self) -> Seq<PhysicalMemoryRegion> {
        self.memory_map@
    }

    /// How many frames were handed out.
    pub closed spec fn next(&self) -> usize {
        self.next
    }

    pub fn new(memory_map: Vec<PhysicalMemoryRegion>) -> (r: Self)
        requires
            regions_fit(memory_map@),
        ensures
            r.memory_map() == memory_map@,
            r.next() == 0,
    {
        Self { memory_map, next: 0 }
    }

    /// An allocator that starts at `frame`: the regions before the one that
    /// contains it are dropped, and that region is moved to start at the
    /// frame (keeping its size). The region must be usable.
    pub fn new_starting_at(frame: PhysicalFrame<Size4KiB>, memory_map: Vec<PhysicalMemoryRegion>) -> (r: Self)
        requires
            regions_fit(memory_map@),
            first_containing(memory_map@, frame.address.0) < memory_map@.len() ==> memory_map@[first_containing(
                memory_map@,
                frame.address.0,
            )].usable_spec() && frame.address.0 + memory_map@[first_containing(memory_map@, frame.address.0)].size
                <= u64::MAX,
        ensures
            r.next() == 0,
            ({
                let i = first_containing(memory_map@, frame.address.0);
                &&& i == memory_map@.len() ==> r.memory_map() == Seq::<PhysicalMemoryRegion>::empty()
                &&& i < memory_map@.len() ==> r.memory_map() == memory_map@.skip(i).update(
                    0,
                    PhysicalMemoryRegion { start: frame.address.0, ..memory_map@[i] },
                )
            }),
    {
        let mut i: usize = 0;
        assert(memory_map@.skip(0) =~= memory_map@);
        while i < memory_map.len()
            invariant
                i <= memory_map@.len(),
                regions_fit(memory_map@),
                first_containing(memory_map@.skip(i as int), frame.address.0) + i == first_containing(memory_map@, frame.address.0),
                first_containing(memory_map@, frame.address.0) < memory_map@.len() ==> frame.address.0 + memory_map@[first_containing(memory_map@, frame.address.0)].size <= u64::MAX,
            decreases memory_map@.len() - i,
        {
            let region = memory_map[i];
            proof {
                assert(memory_map@.skip(i as int)[0] == region);
                assert(memory_map@.skip(i as int).drop_first() =~= memory_map@.skip(i + 1));
            }
            if region.contains(frame.address.0) {
                let mut rest: Vec<PhysicalMemoryRegion> = Vec::new();
                let mut j: usize = i;
                while j < memory_map.len()
                    invariant
                        i <= j <= memory_map@.len(),
                        i < memory_map@.len(),
                        rest@ == memory_map@.subrange(i as int, j as int),
                        regions_fit(memory_map@),
                        memory_map@[i as int] == region,
                        first_containing(memory_map@.skip(i as int), frame.address.0) + i == first_containing(memory_map@, frame.address.0),
                        region.start <= frame.address.0 <= region.start + region.size,
                        first_containing(memory_map@, frame.address.0) < memory_map@.len() ==> frame.address.0 + memory_map@[first_containing(memory_map@, frame.address.0)].size <= u64::MAX,
                    decreases memory_map@.len() - j,
                {
                    rest.push(memory_map[j]);
                    proof {
                        assert(rest@ =~= memory_map@.subrange(i as int, j + 1));
                    }
                    j = j + 1;
                }
                let mut first = region;
                first.start = frame.start();
                rest.set(0, first);
                proof {
                    assert(first_containing(memory_map@.skip(i as int), frame.address.0) == 0);
                    assert(first_containing(memory_map@, frame.address.0) == i);
                    assert(memory_map@[i as int] == region);
                    assert forall|k: int| 0 <= k < rest@.len() implies (#[trigger] rest@[k]).start + rest@[k].size <= u64::MAX by {
                        if k == 0 {
                            assert(rest@[0] == first);
                        } else {
                            assert(rest@[k] == memory_map@[i + k]);
                        }
                    }
                    assert(rest@ =~= memory_map@.skip(i as int).update(
                        0,
                        PhysicalMemoryRegion { start: frame.address.0, ..memory_map@[i as int] },
                    ));
                }
                return Self { memory_map: rest, next: 0 };
            }
            i = i + 1;
        }
        proof {
            assert(memory_map@.skip(i as int) =~= Seq::<PhysicalMemoryRegion>::empty());
        }
        Self { memory_map: Vec::new(), next: 0 }
    }

    /// The largest end address of the regions of the map, which must not be empty.
    pub fn max_physical_address(&self) -> (r: PhysicalAddress)
        requires
            self.memory_map().len() > 0,
        ensures
            r.0 == max_end(self.memory_map()),
    {
        proof {
            use_type_invariant(self);
        }
        let n = self.memory_map.len();
        let mut i: usize = n - 1;
        let mut m: u64 = self.memory_map[i].end();
        proof {
            assert(self.memory_map@.skip(i as int).drop_first() =~= Seq::<PhysicalMemoryRegion>::empty());
        }
        while i > 0
            invariant
                0 <= i < n,
                n == self.memory_map@.len(),
                regions_fit(self.memory_map@),
                m == max_end(self.memory_map@.skip(i as int)),
            decreases i,
        {
            i = i - 1;
            let e = self.memory_map[i].end();
            proof {
                assert(self.memory_map@.skip(i as int).drop_first() =~= self.memory_map@.skip(i + 1));
            }
            if e >= m {
                m = e;
            }
        }
        proof {
            assert(self.memory_map@.skip(0) =~= self.memory_map@);
        }
        PhysicalAddress::new(m)
    }

    /// The `n`-th frame of the usable regions.
    fn nth_usable_frame(&self, n: usize) -> (r: Option<PhysicalFrame<Size4KiB>>)
        requires
            regions_fit(self.memory_map()),
        ensures
            n < usable_frames(self.memory_map()).len() ==> (r matches Some(f) && f.address.0 == usable_frames(
                self.memory_map(),
            )[n as int]),
            n >= usable_frames(self.memory_map()).len() ==> r is None,
            r matches Some(f) ==> f.address.0 % 0x1000 == 0 && exists|j: int, a: int|
                #[trigger] in_free_region(self.memory_map(), j, a) && f.address.0 <= a < f.address.0 + 0x1000,
    {
        let mut i: usize = 0;
        let mut rem: u64 = n as u64;
        proof {
            assert(self.memory_map@.skip(0) =~= self.memory_map@);
        }
        while i < self.memory_map.len()
            invariant
                i <= self.memory_map@.len(),
                regions_fit(self.memory_map@),
                (n < usable_frames(self.memory_map@).len()) == (rem < usable_frames(self.memory_map@.skip(i as int)).len()),
                rem < usable_frames(self.memory_map@.skip(i as int)).len() ==> usable_frames(self.memory_map@)[n as int]
                    == usable_frames(self.memory_map@.skip(i as int))[rem as int],
            decreases self.memory_map@.len() - i,
        {
            let region = self.memory_map[i];
            let ghost rest = self.memory_map@.skip(i as int);
            proof {
                assert(rest[0] == region);
                assert(rest.drop_first() =~= self.memory_map@.skip(i + 1));
            }
            if region.is_usable() {
                let start = region.start();
                let end = region.end();
                let count: u64 = if start < end {
                    let d = end - start;
                    let c: u64 = if d % 0x1000 != 0 { d / 0x1000 + 1 } else { d / 0x1000 };
                    assert(c == (d + 0xfff) / 0x1000) by (nonlinear_arith)
                        requires
                            c == (if d % 0x1000 != 0 { d / 0x1000 + 1 } else { d / 0x1000 + 0 }),
                    ;
                    c
                } else {
                    0
                };
                if rem < count {
                    assert(rem * 0x1000 < end - start) by (nonlinear_arith)
                        requires
                            rem < count,
                            count == (end - start + 0xfff) / 0x1000,
                            start < end,
                    ;
                    let addr = start + rem * 0x1000;
                    proof {
                        assert(in_free_region(self.memory_map(), i as int, addr as int));
                    }
                    return Some(PhysicalFrame::containing_address(PhysicalAddress::new(addr)));
                }
                rem = rem - count;
            }
            i = i + 1;
        }
        proof {
            assert(self.memory_map@.skip(i as int) =~= Seq::<PhysicalMemoryRegion>::empty());
        }
        None
    }
}

impl FrameAllocator<Size4KiB> for BumpFrameAllocator {
    open spec fn can_deallocate(&self, frame: u64) -> bool {
        true
    }

    /// Frames are handed out in order, moving the count of frames on.
    open spec fn takes(before: Self, after: Self) -> bool {
        &&& after.memory_map() == before.memory_map()
        &&& after.next() >= before.next()
    }

    proof fn lemma_takes_refl(a: Self) {
    }

    proof fn lemma_takes_trans(a: Self, b: Self, c: Self) {
    }

    /// The next usable frame is handed out and the count moves on.
    open spec fn gives(before: Self, after: Self, frame: u64) -> bool {
        &&& after.memory_map() == before.memory_map()
        &&& before.next() < usable_frames(before.memory_map()).len()
        &&& frame == usable_frames(before.memory_map())[before.next() as int]
        &&& after.next() == (if before.next() < usize::MAX { before.next() + 1 } else { before.next() as int })
    }

    proof fn lemma_gives_takes(a: Self, b: Self, frame: u64) {
    }

    /// The count of frames is past the usable frames and moves on all the
    /// same.
    open spec fn runs_dry(before: Self, after: Self) -> bool {
        &&& after.memory_map() == before.memory_map()
        &&& before.next() >= usable_frames(before.memory_map()).len()
        &&& after.next() == (if before.next() < usize::MAX { before.next() + 1 } else { before.next() as int })
    }

    /// Hands out the next frame of the usable regions; the count of frames
    /// handed out stops growing at `usize::MAX`.
    fn allocate_frame(&mut self) -> (r: Option<PhysicalFrame<Size4KiB>>)
        ensures
            final(self).memory_map() == old(self).memory_map(),
            ({
                let fs = usable_frames(old(self).memory_map());
                &&& old(self).next() < fs.len() ==> (r matches Some(f) && f.address.0 == fs[old(self).next() as int])
                &&& old(self).next() >= fs.len() ==> r is None
            }),
            final(self).next() == (if old(self).next() < usize::MAX { old(self).next() + 1 } else { old(self).next() as int }),
            r matches Some(f) ==> f.address.0 % 0x1000 == 0 && exists|j: int, a: int|
                #[trigger] in_free_region(old(self).memory_map(), j, a) && f.address.0 <= a < f.address.0 + 0x1000,
    {
        proof {
            use_type_invariant(&*self);
            if self.next() < usable_frames(self.memory_map()).len() {
                lemma_usable_frames_are_free(self.memory_map(), self.next() as int);
            }
        }
        let frame = self.nth_usable_frame(self.next);
        self.next = self.next.saturating_add(1);
        frame
    }

    /// Frames are never taken back.
    fn deallocate_frame(&mut self, frame: PhysicalFrame<Size4KiB>)
        ensures
            *final(self) == *old(self),
    {
    }
}

} // verus!
