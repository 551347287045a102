//! A frame allocator that keeps the free frames on a list.
use vstd::prelude::*;
use crate::memory::{
    frame_base, FrameAllocator, MemoryRegion, Page, PhysicalAddress, PhysicalFrame, PhysicalMemoryRegion,
    Size4KiB, VirtualAddress,
};
use crate::bump_frame_allocator::in_free_region;

verus! {

/// The pages, as start addresses, that cover `[start, end)` of physical
/// memory once it is moved up by `offset`: from the page holding
/// `start + offset` to the page holding `end - 1 + offset`.
pub open spec fn region_pages(start: u64, end: u64, offset: u64) -> Seq<u64> {
    let first = frame_base::<Size4KiB>((start + offset) as u64);
    let last = frame_base::<Size4KiB>((end - 1 + offset) as u64);
    if first <= last {
        Seq::new((((last - first) / 0x1000) + 1) as nat, |i: int| (first + i * 0x1000) as u64)
    } else {
        Seq::empty()
    }
}

/// The free list that `init` builds from a memory map: the pages of each
/// usable region in turn, each pushed on the front.
pub open spec fn map_pages(regions: Seq<PhysicalMemoryRegion>, offset: u64) -> Seq<u64>
    decreases regions.len(),
{
    if regions.len() == 0 {
        Seq::empty()
    } else {
        let r = regions[0];
        let own = if r.usable_spec() {
            region_pages(r.start, (r.start + r.size) as u64, offset)
        } else {
            Seq::empty()
        };
        own + map_pages(regions.drop_first(), offset)
    }
}

/// Every usable region starts on a page, ends within the address space and
/// is moved up by the page-aligned `offset` without passing `usize::MAX`.
pub open spec fn map_fits(regions: Seq<PhysicalMemoryRegion>, offset: u64) -> bool {
    forall|i: int|
        0 <= i < regions.len() && (#[trigger] regions[i]).usable_spec() ==> {
            &&& regions[i].start % 0x1000 == 0
            &&& offset % 0x1000 == 0
            &&& regions[i].size >= 1
            &&& regions[i].start + regions[i].size + offset <= usize::MAX
            &&& regions[i].start + regions[i].size <= u64::MAX
        }
}

/// A frame allocator holding the free frames, by the virtual address they
/// are seen at, on a list.
pub struct LinkedListFrameAllocator {
    free_list: Vec<usize>,
    free_list_size: usize,
    offset: usize,
}

impl LinkedListFrameAllocator {
    /// The size counts the free list, and every free frame is seen above the offset.
    #[verifier::type_invariant]
    spec fn inv(&self) -> bool {
        &&& self.free_list_size == self.free_list@.len()
        &&& forall|i: int| 0 <= i < self.free_list@.len() ==> self.free_list@[i] >= self.offset
    }

    /// The free list, front last: where each free frame is seen.
    pub closed spec fn free_list(&self) -> Seq<usize> {
        self.free_list@
    }

    /// How far above its physical address a frame is seen.
    pub closed spec fn offset(&self) -> usize {
        self.offset
    }

    pub fn new() -> (r: Self)
        ensures
            r.free_list() == Seq::<usize>::empty(),
            r.offset() == 0,
    {
        Self { free_list: Vec::new(), free_list_size: 0, offset: 0 }
    }

    /// Fills the free list with the pages of the usable regions of `map`,
    /// seen at `offset`.
    #[verifier::spinoff_prover]
    #[verifier::rlimit(30)]
    pub fn init(&mut self, map: Vec<PhysicalMemoryRegion>, offset: usize)
        requires
            old(self).free_list().len() == 0,
            map_fits(map@, offset as u64),
        ensures
            final(self).free_list() == map_pages(map@, offset as u64).map_values(|a: u64| a as usize),
            final(self).offset() == offset,
            forall|i: int|
                0 <= i < final(self).free_list().len() ==> free_page_seen_at(map@, offset as int, #[trigger] final(self).free_list()[i] as int),
    {
        let ghost target = map_pages(map@, offset as u64).map_values(|a: u64| a as usize);
        let mut list: Vec<usize> = Vec::new();
        let mut i: usize = 0;
        assert(map@.skip(0) =~= map@);
        while i < map.len()
            invariant
                i <= map@.len(),
                map_fits(map@, offset as u64),
                list@ + map_pages(map@.skip(i as int), offset as u64).map_values(|a: u64| a as usize) == target,
                forall|j: int| 0 <= j < list@.len() ==> list@[j] >= offset,
            decreases map@.len() - i,
        {
            let region = map[i];
            let ghost rest = map@.skip(i as int);
            proof {
                assert(rest[0] == region);
                assert(rest.drop_first() =~= map@.skip(i + 1));
                assert(map@[i as int] == region);
            }
            if region.is_usable() {
                let start = region.start();
                let end = region.end();
                let start_page: Page<Size4KiB> = Page::containing_address(VirtualAddress::new(start + offset as u64));
                let end_page: Page<Size4KiB> = Page::containing_address(VirtualAddress::new(end - 1 + offset as u64));
                let first: u64 = start_page.address.0;
                let last: u64 = end_page.address.0;
                let ghost pages = region_pages(start, end, offset as u64);
                proof {
                    assert((start + offset) % 0x1000 == 0);
                    assert(first == start + offset);
                    assert(map_pages(rest, offset as u64).map_values(|a: u64| a as usize) =~= pages.map_values(|a: u64| a as usize)
                        + map_pages(rest.drop_first(), offset as u64).map_values(|a: u64| a as usize));
                }
                if first <= last {
                    let n: u64 = (last - first) / 0x1000 + 1;
                    let mut k: u64 = 0;
                    proof {
                        assert(pages.subrange(0, n as int) =~= pages);
                    }
                    while k < n
                        invariant
                            first <= last <= usize::MAX,
                            first >= offset,
                            n == (last - first) / 0x1000 + 1,
                            pages == Seq::new(n as nat, |i: int| (first + i * 0x1000) as u64),
                            k <= n,
                            list@ + pages.subrange(k as int, n as int).map_values(|a: u64| a as usize)
                                + map_pages(rest.drop_first(), offset as u64).map_values(|a: u64| a as usize) == target,
                            forall|j: int| 0 <= j < list@.len() ==> list@[j] >= offset,
                        decreases n - k,
                    {
                        assert(k * 0x1000 <= last - first) by (nonlinear_arith)
                            requires
                                k < n,
                                n == (last - first) / 0x1000 + 1,
                        ;
                        let addr: u64 = first + k * 0x1000;
                        proof {
                            assert(pages[k as int] == addr);
                        }
                        list.push(addr as usize);
                        proof {
                            assert(pages.subrange(k as int, n as int).map_values(|a: u64| a as usize) =~= seq![addr as usize].add(
                                pages.subrange(k + 1, n as int).map_values(|a: u64| a as usize)));
                        }
                        k = k + 1;
                    }
                } else {
                    proof {
                        assert(pages =~= Seq::<u64>::empty());
                    }
                }
            } else {
                proof {
                    assert(map_pages(rest, offset as u64) =~= map_pages(rest.drop_first(), offset as u64));
                }
            }
            i = i + 1;
        }
        proof {
            assert(map@.skip(i as int) =~= Seq::<PhysicalMemoryRegion>::empty());
            assert(list@ =~= target);
        }
        let n = list.len();
        *self = Self { free_list: list, free_list_size: n, offset };
        proof {
            assert forall|i: int| 0 <= i < self.free_list().len() implies free_page_seen_at(map@, offset as int, #[trigger] self.free_list()[i] as int) by {
                lemma_map_pages_are_free(map@, offset as u64, i);
            }
        }
    }
}


impl FrameAllocator<Size4KiB> for LinkedListFrameAllocator {
    open spec fn can_deallocate(&self, frame: u64) -> bool {
        &&& frame + self.offset() <= usize::MAX
        &&& self.free_list().len() < usize::MAX
    }

    /// Frames are taken from the end of the free list.
    open spec fn takes(before: Self, after: Self) -> bool {
        &&& after.offset() == before.offset()
        &&& after.free_list().len() <= before.free_list().len()
        &&& after.free_list() == before.free_list().take(after.free_list().len() as int)
    }

    proof fn lemma_takes_refl(a: Self) {
        assert(a.free_list().take(a.free_list().len() as int) =~= a.free_list());
    }

    proof fn lemma_takes_trans(a: Self, b: Self, c: Self) {
        assert(c.free_list() =~= a.free_list().take(c.free_list().len() as int));
    }

    /// The frame at the end of the free list is handed out.
    open spec fn gives(before: Self, after: Self, frame: u64) -> bool {
        &&& before.free_list().len() > 0
        &&& frame == frame_base::<Size4KiB>((before.free_list().last() - before.offset()) as u64)
        &&& after.free_list() == before.free_list().drop_last()
        &&& after.offset() == before.offset()
    }

    proof fn lemma_gives_takes(a: Self, b: Self, frame: u64) {
        assert(b.free_list() =~= a.free_list().take(b.free_list().len() as int));
    }

    /// The free list is empty and stays as it was.
    open spec fn runs_dry(before: Self, after: Self) -> bool {
        &&& before.free_list().len() == 0
        &&& after.free_list() == before.free_list()
        &&& after.offset() == before.offset()
    }

    /// Takes the frame at the front of the free list.
    fn allocate_frame(&mut self) -> (r: Option<PhysicalFrame<Size4KiB>>)
        ensures
            final(self).offset() == old(self).offset(),
            old(self).free_list().len() == 0 ==> r is None && final(self).free_list() == old(self).free_list(),
            old(self).free_list().len() > 0 ==> {
                &&& r matches Some(f) && f.address.0 == frame_base::<Size4KiB>(
                    (old(self).free_list().last() - old(self).offset()) as u64,
                )
                &&& final(self).free_list() == old(self).free_list().drop_last()
            },
    {
        proof {
            use_type_invariant(&*self);
        }
        let mut list = self.free_list.clone();
        assert(list@ =~= self.free_list@);
        match list.pop() {
            Some(node) => {
                let size = self.free_list_size - 1;
                let offset = self.offset;
                proof {
                    assert(node == self.free_list@[self.free_list@.len() - 1]);
                }
                let ghost before = *self;
                *self = Self { free_list: list, free_list_size: size, offset };
                proof {
                    assert(self.free_list() =~= before.free_list().take(self.free_list().len() as int));
                }
                Some(PhysicalFrame::containing_address(PhysicalAddress::new((node - offset) as u64)))
            },
            None => {
                proof {
                    assert(self.free_list() =~= self.free_list().take(self.free_list().len() as int));
                }
                None
            },
        }
    }

    /// Pushes `frame` on the front of the free list.
    fn deallocate_frame(&mut self, frame: PhysicalFrame<Size4KiB>)
        ensures
            final(self).offset() == old(self).offset(),
            final(self).free_list() == old(self).free_list().push((frame.address.0 + old(self).offset()) as usize),
    {
        proof {
            use_type_invariant(&*self);
        }
        let mut list = self.free_list.clone();
        assert(list@ =~= self.free_list@);
        let offset = self.offset;
        let node: usize = frame.start() as usize + offset;
        list.push(node);
        let size = self.free_list_size + 1;
        *self = Self { free_list: list, free_list_size: size, offset };
    }
}

/// Handing out the frame at the front of the free list and taking it back
/// leaves the free list as it was, when that frame is seen at a page
/// boundary.
pub proof fn lemma_allocate_then_deallocate(list: Seq<usize>, offset: usize)
    requires
        list.len() > 0,
        list.last() >= offset,
        (list.last() - offset) % 0x1000 == 0,
    ensures
        list.drop_last().push((frame_base::<Size4KiB>((list.last() - offset) as u64) + offset) as usize) == list,
{
    assert(list.drop_last().push(list.last()) =~= list);
}

/// The free list is last in, first out: a frame given back at a page
/// boundary is the next one handed out.
pub proof fn lemma_deallocate_then_allocate(list: Seq<usize>, offset: usize, frame: u64)
    requires
        frame % 0x1000 == 0,
        frame + offset <= usize::MAX,
    ensures
        ({
            let after = list.push((frame + offset) as usize);
            &&& frame_base::<Size4KiB>((after.last() - offset) as u64) == frame
            &&& after.drop_last() == list
        }),
{
    let after = list.push((frame + offset) as usize);
    assert(after.drop_last() =~= list);
    assert(<Size4KiB as crate::memory::PageSize>::size_spec() == 0x1000);
}

/// `p` is the address, moved up by `offset`, of a page-aligned address in a
/// region of `regions` whose type is free, and fits in a `usize`.
pub open spec fn free_page_seen_at(regions: Seq<PhysicalMemoryRegion>, offset: int, p: int) -> bool {
    &&& p <= usize::MAX
    &&& exists|j: int, a: int| #[trigger] in_free_region(regions, j, a) && a % 0x1000 == 0 && p == a + offset
}

/// `init` puts only pages of free memory on the list: with a memory map
/// that fits, each entry of the list it builds is the address, moved up by
/// `offset`, of a page-aligned address lying in a region of the map whose
/// type is free.
pub proof fn lemma_map_pages_are_free(regions: Seq<PhysicalMemoryRegion>, offset: u64, i: int)
    requires
        map_fits(regions, offset),
        0 <= i < map_pages(regions, offset).len(),
    ensures
        free_page_seen_at(regions, offset as int, map_pages(regions, offset)[i] as int),
    decreases regions.len(),
{
    let r = regions[0];
    let own = if r.usable_spec() {
        region_pages(r.start, (r.start + r.size) as u64, offset)
    } else {
        Seq::<u64>::empty()
    };
    let rest = map_pages(regions.drop_first(), offset);
    assert(map_pages(regions, offset) == own + rest);
    assert forall|k: int| 0 <= k < regions.drop_first().len() && (#[trigger] regions.drop_first()[k]).usable_spec() implies {
        let q = regions.drop_first()[k];
        &&& q.start % 0x1000 == 0
        &&& offset % 0x1000 == 0
        &&& q.size >= 1
        &&& q.start + q.size + offset <= usize::MAX
        &&& q.start + q.size <= u64::MAX
    } by {
        assert(regions.drop_first()[k] == regions[k + 1]);
    }
    if i < own.len() {
        assert(r.usable_spec());
        let end = (r.start + r.size) as u64;
        let first = frame_base::<Size4KiB>((r.start + offset) as u64);
        let last = frame_base::<Size4KiB>((end - 1 + offset) as u64);
        assert(regions[0].usable_spec());
        assert(r.start % 0x1000 == 0 && offset % 0x1000 == 0 && r.size >= 1 && r.start + r.size + offset <= usize::MAX);
        assert(<Size4KiB as crate::memory::PageSize>::size_spec() == 0x1000);
        assert((r.start + offset) % 0x1000 == 0) by (nonlinear_arith)
            requires
                r.start % 0x1000 == 0,
                offset % 0x1000 == 0,
        ;
        assert(first == r.start + offset);
        assert(i * 0x1000 <= last - first) by (nonlinear_arith)
            requires
                0 <= i < (last - first) / 0x1000 + 1,
                first <= last,
        ;
        let a = r.start + i * 0x1000;
        assert(a + offset <= last);
        assert(end == r.start + r.size);
        let x = (end - 1 + offset) as u64;
        assert(x == end - 1 + offset);
        assert(x % 0x1000 <= x && x % 0x1000 >= 0) by (nonlinear_arith)
            requires
                x >= 0,
        ;
        assert(frame_base::<Size4KiB>(x) == x - x % 0x1000);
        assert(last <= end - 1 + offset);
        assert(a % 0x1000 == 0) by (nonlinear_arith)
            requires
                a == r.start + i * 0x1000,
                r.start % 0x1000 == 0,
        ;
        assert(in_free_region(regions, 0, a));
    } else {
        lemma_map_pages_are_free(regions.drop_first(), offset, i - own.len());
        let (j, a) = choose|j: int, a: int|
            #[trigger] in_free_region(regions.drop_first(), j, a) && a % 0x1000 == 0 && rest[i - own.len()] == a + offset;
        assert(regions.drop_first()[j] == regions[j + 1]);
        assert(in_free_region(regions, j + 1, a));
    }
}

/// The free list is last in, first out: once a page-aligned frame is given
/// back (`deallocate_frame` pushes it, seen at the allocator's offset), the
/// next frame handed out (`allocate_frame`, which meets `gives`) is that
/// same frame, and the free list is as it was before.
pub proof fn lemma_given_back_frame_comes_next(
    a: LinkedListFrameAllocator,
    b: LinkedListFrameAllocator,
    c: LinkedListFrameAllocator,
    frame: u64,
    f: u64,
)
    requires
        frame % 0x1000 == 0,
        frame + a.offset() <= usize::MAX,
        b.offset() == a.offset(),
        b.free_list() == a.free_list().push((frame + a.offset()) as usize),
        <LinkedListFrameAllocator as FrameAllocator<Size4KiB>>::gives(b, c, f),
    ensures
        f == frame,
        c.free_list() == a.free_list(),
        c.offset() == a.offset(),
{
    assert(b.free_list().drop_last() =~= a.free_list());
    assert(<Size4KiB as crate::memory::PageSize>::size_spec() == 0x1000);
}

} // verus!
