//! Kernel heap and stack allocation.
use vstd::prelude::*;
use crate::allocator::buddy_allocator::{blocks, push_blocks, BuddyAllocator};
use crate::error::{KernelError, MemoryError};
use crate::memory::{FrameAllocator, Page, PageRangeInclusive, Size4KiB, VirtualAddress};
use crate::paging::{gives_in_turn, lemma_run_step, mapped_run, maps_in_turn, Mapper, PageTableEntryFlags};

pub mod buddy_allocator;
pub mod stack_allocator;

verus! {

/// Where the kernel heap starts.
pub const HEAP_START: u64 = 0x_4444_4444_0000;

/// The size of the kernel heap: 100 KiB.
pub const HEAP_SIZE: usize = 102400;

/// The pages `init_heap` maps, in order: the heap pages, then the guard page.
pub open spec fn heap_pages() -> Seq<u64> {
    Seq::new(26, |i: int| (HEAP_START + i * 0x1000) as u64)
}

/// The flags of the pages `init_heap` maps: present, writable and not
/// executable for the heap, none for the guard page.
pub open spec fn heap_flags() -> Seq<u64> {
    Seq::new(26, |i: int| if i < 25 { (1u64 | 2u64) | 0x8000_0000_0000_0000u64 } else { 0u64 })
}

/// Maps the heap pages, each to a fresh frame from `frame_allocator`,
/// present, writable and not executable; maps the page after them as a
/// guard, to a fresh frame too, with no flags; then hands the heap to
/// `heap`. Hands back the heap pages. A frame the allocator cannot give, or
/// a page that cannot be mapped, is an error: the pages before it stay
/// mapped, and the heap is left as it was.
pub fn init_heap<M: Mapper<Size4KiB>, A: FrameAllocator<Size4KiB>>(
    page_table: &mut M,
    frame_allocator: &mut A,
    heap: &mut BuddyAllocator,
) -> (r: Result<PageRangeInclusive<Size4KiB>, KernelError>)
    requires
        old(heap).wf(),
    ensures
        final(heap).wf(),
        A::takes(*old(frame_allocator), *final(frame_allocator)),
        r is Err ==> final(heap)@ == old(heap)@,
        r matches Err(e) ==> e == KernelError::MemoryError(MemoryError::OutOfPhysicalMemory) || e is PagingMappingError,
        r is Ok ==> mapped_run(
            *old(page_table),
            *old(frame_allocator),
            heap_pages(),
            heap_flags(),
            26,
            *final(page_table),
            *final(frame_allocator),
        ),
        r == Err::<PageRangeInclusive<Size4KiB>, KernelError>(KernelError::MemoryError(MemoryError::OutOfPhysicalMemory))
            ==> exists|k: nat, a: A|
            #![trigger mapped_run(*old(page_table), *old(frame_allocator), heap_pages(), heap_flags(), k, *final(page_table), a)]
            k < 26 && mapped_run(
                *old(page_table),
                *old(frame_allocator),
                heap_pages(),
                heap_flags(),
                k,
                *final(page_table),
                a,
            ) && A::runs_dry(a, *final(frame_allocator)),
        r matches Err(KernelError::PagingMappingError(e)) ==> exists|k: nat, t: M, a: A, a2: A, f: u64|
            #![trigger mapped_run(*old(page_table), *old(frame_allocator), heap_pages(), heap_flags(), k, t, a), A::gives(a, a2, f)]
            k < 26 && mapped_run(*old(page_table), *old(frame_allocator), heap_pages(), heap_flags(), k, t, a)
                && A::gives(a, a2, f) && M::fails_to_map(
                t,
                *final(page_table),
                heap_pages()[k as int],
                f,
                heap_flags()[k as int],
                e,
            ) && A::takes(a2, *final(frame_allocator)),
        r matches Ok(range) ==> {
            &&& final(heap)@ == push_blocks(old(heap)@, blocks(HEAP_START, (HEAP_START + HEAP_SIZE) as u64))
            &&& range.start_page.address.0 == HEAP_START
            &&& range.end_page.address.0 == HEAP_START + HEAP_SIZE - 0x1000
        },
{
    let start_page: Page<Size4KiB> = Page::containing_address(VirtualAddress::new(HEAP_START));
    let end_page: Page<Size4KiB> = Page::containing_address(VirtualAddress::new(HEAP_START + HEAP_SIZE as u64 - 1));
    assert(HEAP_START % 0x1000 == 0);
    assert(start_page.address.0 == HEAP_START);
    assert((HEAP_START + HEAP_SIZE - 1) % 0x1000 == 0xfff);
    assert(end_page.address.0 == HEAP_START + HEAP_SIZE - 0x1000);
    let flags = PageTableEntryFlags::present().union(PageTableEntryFlags::writable()).union(
        PageTableEntryFlags::no_execute(),
    );
    let mut address: u64 = start_page.address.0;
    let ghost t0 = *page_table;
    let ghost a0 = *frame_allocator;
    let ghost mut states: Seq<M> = seq![*page_table];
    let ghost mut frames: Seq<u64> = Seq::empty();
    let ghost mut pre: Seq<A> = Seq::empty();
    let ghost mut post: Seq<A> = Seq::empty();
    let ghost mut k: int = 0;
    proof {
        A::lemma_takes_refl(*frame_allocator);
        assert(heap_pages().take(0) =~= Seq::<u64>::empty());
        assert(heap_flags().take(0) =~= Seq::<u64>::empty());
    }
    while address <= end_page.address.0
        invariant
            end_page.address.0 == HEAP_START + HEAP_SIZE - 0x1000,
            start_page.address.0 <= address <= end_page.address.0 + 0x1000,
            *heap == *old(heap),
            old(heap).wf(),
            0 <= k <= 25,
            address == HEAP_START + k * 0x1000,
            address % 0x1000 == 0,
            flags.bits == (1u64 | 2u64) | 0x8000_0000_0000_0000u64,
            t0 == *old(page_table),
            a0 == *old(frame_allocator),
            states[0] == t0,
            states.last() == *page_table,
            maps_in_turn::<Size4KiB, M>(states, heap_pages().take(k), frames, heap_flags().take(k)),
            gives_in_turn(a0, *frame_allocator, pre, post, frames),
            A::takes(a0, *frame_allocator),
        decreases end_page.address.0 + 0x1000 - address,
    {
        let page: Page<Size4KiB> = Page::containing_address(VirtualAddress::new(address));
        let ghost a_before = *frame_allocator;
        proof {
            assert(mapped_run(t0, a0, heap_pages(), heap_flags(), k as nat, *page_table, a_before));
        }
        let next = frame_allocator.allocate_frame();
        proof {
            A::lemma_takes_trans(a0, a_before, *frame_allocator);
        }
        let frame = match next {
            Some(f) => f,
            None => {
                return Err(KernelError::MemoryError(MemoryError::OutOfPhysicalMemory));
            },
        };
        let ghost a_mid = *frame_allocator;
        let mapped = page_table.map_to(frame, page, flags, frame_allocator);
        proof {
            A::lemma_takes_trans(a0, a_mid, *frame_allocator);
            assert(heap_pages()[k] == page.address.0);
            assert(heap_flags()[k] == flags.bits);
        }
        match mapped {
            Ok(flusher) => flusher.ignore(),
            Err(e) => {
                return Err(KernelError::PagingMappingError(e));
            },
        }
        proof {
            lemma_run_step(
                a0,
                heap_pages(),
                heap_flags(),
                k,
                states,
                frames,
                pre,
                post,
                *page_table,
                a_before,
                a_mid,
                *frame_allocator,
                frame.address.0,
            );
            states = states.push(*page_table);
            frames = frames.push(frame.address.0);
            pre = pre.push(a_before);
            post = post.push(a_mid);
            k = k + 1;
        }
        address = address + 0x1000;
    }
    let guard_page: Page<Size4KiB> = Page::containing_address(VirtualAddress::new(HEAP_START + HEAP_SIZE as u64));
    let ghost a_before = *frame_allocator;
    proof {
        assert(k == 25);
        assert(mapped_run(t0, a0, heap_pages(), heap_flags(), 25, *page_table, a_before));
    }
    let next = frame_allocator.allocate_frame();
    proof {
        A::lemma_takes_trans(a0, a_before, *frame_allocator);
    }
    let frame = match next {
        Some(f) => f,
        None => {
            return Err(KernelError::MemoryError(MemoryError::OutOfPhysicalMemory));
        },
    };
    let ghost a_mid = *frame_allocator;
    let mapped = page_table.map_to(frame, guard_page, PageTableEntryFlags::none(), frame_allocator);
    proof {
        A::lemma_takes_trans(a0, a_mid, *frame_allocator);
        assert(heap_pages()[25] == guard_page.address.0);
        assert(heap_flags()[25] == 0);
    }
    match mapped {
        Ok(flusher) => flusher.ignore(),
        Err(e) => {
            return Err(KernelError::PagingMappingError(e));
        },
    }
    proof {
        lemma_run_step(
            a0,
            heap_pages(),
            heap_flags(),
            25,
            states,
            frames,
            pre,
            post,
            *page_table,
            a_before,
            a_mid,
            *frame_allocator,
            frame.address.0,
        );
        let s2 = states.push(*page_table);
        let f2 = frames.push(frame.address.0);
        let p2 = pre.push(a_before);
        let q2 = post.push(a_mid);
        assert(heap_pages().take(26) =~= heap_pages());
        assert(heap_flags().take(26) =~= heap_flags());
        assert(maps_in_turn::<Size4KiB, M>(s2, heap_pages().take(26), f2, heap_flags().take(26)));
        assert(gives_in_turn(a0, *frame_allocator, p2, q2, f2));
        assert(mapped_run(t0, a0, heap_pages(), heap_flags(), 26, *page_table, *frame_allocator));
    }
    heap.init(VirtualAddress::new(HEAP_START), HEAP_SIZE);
    Ok(PageRangeInclusive::new(start_page, end_page))
}

/// A value handed out for exclusive use.
pub struct Locked<A> {
    inner: A,
}

impl<A> Locked<A> {
    pub closed spec fn inner(&self) -> A {
        self.inner
    }

    pub fn new(inner: A) -> (r: Self)
        ensures
            r.inner() == inner,
    {
        Locked { inner }
    }

    /// The value, for exclusive use.
    pub fn lock(&mut self) -> (r: &mut A)
        ensures
            *r == old(self).inner(),
            final(self).inner() == *final(r),
    {
        &mut self.inner
    }
}

} // verus!
