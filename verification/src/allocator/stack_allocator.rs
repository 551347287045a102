//! Hands out kernel stacks from a range of pages, each below a guard page.
use vstd::prelude::*;
use crate::memory::{FrameAllocator, Page, PageRangeInclusive, Size4KiB, VirtualAddress};
use crate::paging::{gives_in_turn, lemma_run_step, mapped_run, maps_in_turn, MappingError, Mapper, PageTableEntryFlags};

verus! {

/// A stack: the address it grows down from and its size in bytes.
#[derive(Clone, Copy)]
pub struct Stack {
    pub top: VirtualAddress,
    pub len: usize,
}

impl Stack {
    pub fn new(top: VirtualAddress, len: usize) -> (r: Self)
        ensures
            r.top == top,
            r.len == len,
    {
        Self { top, len }
    }

    pub fn top(&self) -> (r: VirtualAddress)
        ensures
            r == self.top,
    {
        self.top
    }
}

impl Default for Stack {
    fn default() -> (r: Self)
        ensures
            r.top.0 == 0,
            r.len == 0,
    {
        Self { top: VirtualAddress::new(0), len: 0 }
    }
}

/// The `n` pages of a stack whose guard page starts at `s`.
pub open spec fn stack_pages(s: u64, n: nat) -> Seq<u64> {
    Seq::new(n, |i: int| (s + (i + 1) * 0x1000) as u64)
}

/// The flags of the `n` pages of a stack: writable and present.
pub open spec fn stack_flags(n: nat) -> Seq<u64> {
    Seq::new(n, |i: int| 2u64 | 1u64)
}

/// The pages mapped for a stack of `n` pages taken from a range starting
/// at `s`: the guard page `s` is left out, the first stack page is the one
/// after it, each next page follows the one before, and the last one is at
/// `s + n` pages, the stack's top.
pub proof fn lemma_stack_pages_follow_guard(s: u64, n: nat)
    requires
        n >= 1,
        s + n * 0x1000 <= u64::MAX,
    ensures
        stack_pages(s, n).len() == n,
        stack_pages(s, n)[0] == s + 0x1000,
        forall|i: int| 0 < i < n ==> #[trigger] stack_pages(s, n)[i] == stack_pages(s, n)[i - 1] + 0x1000,
        stack_pages(s, n)[n - 1] == s + n * 0x1000,
        forall|i: int| 0 <= i < n ==> #[trigger] stack_pages(s, n)[i] != s,
{
    assert forall|i: int| 0 <= i < n implies #[trigger] stack_pages(s, n)[i] == s + (i + 1) * 0x1000 by {
        assert((i + 1) * 0x1000 <= n * 0x1000) by (nonlinear_arith)
            requires
                i + 1 <= n,
        ;
    }
}

/// Every page of a stack is mapped present (bit 0) and writable (bit 1),
/// with no other flag.
pub proof fn lemma_stack_pages_writable(n: nat)
    ensures
        forall|i: int|
            0 <= i < n ==> {
                let f = #[trigger] stack_flags(n)[i];
                &&& f & 1 == 1
                &&& (f >> 1u64) & 1 == 1
                &&& f >> 2u64 == 0
            },
{
    assert((2u64 | 1u64) & 1 == 1 && ((2u64 | 1u64) >> 1u64) & 1 == 1 && (2u64 | 1u64) >> 2u64 == 0) by (bit_vector);
}

/// Hands out stacks from the front of a range of pages.
pub struct StackAllocator {
    pub page_range: PageRangeInclusive<Size4KiB>,
}

impl StackAllocator {
    pub fn new(page_range: PageRangeInclusive<Size4KiB>) -> (r: Self)
        ensures
            r.page_range == page_range,
    {
        Self { page_range }
    }

    /// Takes a guard page and `pages_cnt` pages from the front of the range
    /// and maps the stack pages in turn, writable and present, each to the
    /// frame `frame_allocator` hands out just before. The stack's top is the
    /// start of its last page, so the `len` bytes below the top begin at the
    /// guard page and the last stack page lies above the top. `None` if the
    /// range has too few pages, or if a frame cannot be had or a page cannot
    /// be mapped (the pages are taken from the range then all the same, and
    /// the pages before stay mapped).
    pub fn alloc_stack<A: FrameAllocator<Size4KiB>, M: Mapper<Size4KiB>>(
        &mut self,
        frame_allocator: &mut A,
        page_table: &mut M,
        pages_cnt: usize,
    ) -> (r: Option<Stack>)
        requires
            pages_cnt >= 1,
            pages_cnt * 0x1000 <= usize::MAX,
            old(self).page_range.end_fits(),
            old(self).page_range.start_page.address.0 % 0x1000 == 0,
        ensures
            A::takes(*old(frame_allocator), *final(frame_allocator)),
            ({
                let s = old(self).page_range.start_page.address.0;
                let e = old(self).page_range.end_page.address.0;
                let n = pages_cnt as nat;
                let t0 = *old(page_table);
                let a0 = *old(frame_allocator);
                &&& s + pages_cnt * 0x1000 > e ==> r is None && final(self).page_range == old(self).page_range
                    && *final(page_table) == *old(page_table) && *final(frame_allocator) == *old(frame_allocator)
                &&& r is Some ==> mapped_run(
                    t0,
                    a0,
                    stack_pages(s, n),
                    stack_flags(n),
                    n,
                    *final(page_table),
                    *final(frame_allocator),
                ) && forall|i: int| 0 <= i < n ==> (#[trigger] stack_flags(n)[i]) & 3 == 3 && stack_flags(n)[i] >> 2u64 == 0
                &&& s + pages_cnt * 0x1000 <= e && r is None ==> {
                    ||| exists|k: nat, a: A|
                        #![trigger mapped_run(t0, a0, stack_pages(s, n), stack_flags(n), k, *final(page_table), a)]
                        k < n && mapped_run(t0, a0, stack_pages(s, n), stack_flags(n), k, *final(page_table), a)
                            && A::runs_dry(a, *final(frame_allocator))
                    ||| exists|k: nat, t: M, a: A, a2: A, f: u64, err: MappingError|
                        #![trigger mapped_run(t0, a0, stack_pages(s, n), stack_flags(n), k, t, a), A::gives(a, a2, f), M::fails_to_map(t, *final(page_table), stack_pages(s, n)[k as int], f, stack_flags(n)[k as int], err)]
                        k < n && mapped_run(t0, a0, stack_pages(s, n), stack_flags(n), k, t, a) && A::gives(a, a2, f)
                            && M::fails_to_map(t, *final(page_table), stack_pages(s, n)[k as int], f, stack_flags(n)[k as int], err)
                            && A::takes(a2, *final(frame_allocator))
                }
                &&& s + pages_cnt * 0x1000 <= e ==> {
                    &&& final(self).page_range.start_page.address.0 == s + (pages_cnt + 1) * 0x1000
                    &&& final(self).page_range.end_page == old(self).page_range.end_page
                    &&& r matches Some(stack) ==> stack.top.0 == s + pages_cnt * 0x1000 && stack.len
                        == pages_cnt * 0x1000
                }
            }),
    {
        let s: u64 = self.page_range.start_page.address.0;
        let e: u64 = self.page_range.end_page.address.0;
        let bytes: u64 = pages_cnt as u64 * 0x1000;
        proof {
            A::lemma_takes_refl(*frame_allocator);
        }
        if s > e || e - s < bytes {
            return None;
        }
        let first: u64 = s + 0x1000;
        let last: u64 = s + bytes;
        assert((last + 0x1000) % 0x1000 == 0 && first % 0x1000 == 0) by (nonlinear_arith)
            requires
                s % 0x1000 == 0,
                bytes == pages_cnt * 0x1000,
                last == s + bytes,
                first == s + 0x1000,
        ;
        let rest: Page<Size4KiB> = Page::for_address(VirtualAddress::new(last + 0x1000));
        self.page_range.start_page = rest;
        let mut address: u64 = first;
        let ghost t0 = *page_table;
        let ghost a0 = *frame_allocator;
        let ghost mut states: Seq<M> = seq![*page_table];
        let ghost mut frames: Seq<u64> = Seq::empty();
        let ghost mut pre: Seq<A> = Seq::empty();
        let ghost mut post: Seq<A> = Seq::empty();
        let ghost mut k: int = 0;
        let ghost n = pages_cnt as nat;
        proof {
            assert(stack_pages(s, n).take(0) =~= Seq::<u64>::empty());
            assert(stack_flags(n).take(0) =~= Seq::<u64>::empty());
        }
        while address <= last
            invariant
                A::takes(a0, *frame_allocator),
                t0 == *old(page_table),
                a0 == *old(frame_allocator),
                0 <= k <= n,
                n == pages_cnt,
                address == s + (k + 1) * 0x1000,
                states[0] == t0,
                states.last() == *page_table,
                maps_in_turn::<Size4KiB, M>(states, stack_pages(s, n).take(k), frames, stack_flags(n).take(k)),
                gives_in_turn(a0, *frame_allocator, pre, post, frames),
                first <= address <= last + 0x1000,
                last + 0x1000 <= u64::MAX,
                address % 0x1000 == 0,
                s == old(self).page_range.start_page.address.0,
                e == old(self).page_range.end_page.address.0,
                last == s + pages_cnt * 0x1000,
                last <= e,
                self.page_range.start_page.address.0 == s + (pages_cnt + 1) * 0x1000,
                self.page_range.end_page == old(self).page_range.end_page,
            decreases last + 0x1000 - address,
        {
            let page: Page<Size4KiB> = Page::for_address(VirtualAddress::new(address));
            let ghost a_before = *frame_allocator;
            proof {
                assert(mapped_run(t0, a0, stack_pages(s, n), stack_flags(n), k as nat, *page_table, a_before));
            }
            let next = frame_allocator.allocate_frame();
            proof {
                A::lemma_takes_trans(a0, a_before, *frame_allocator);
            }
            let frame = match next {
                Some(f) => f,
                None => {
                    return None;
                },
            };
            let flags = PageTableEntryFlags::writable().union(PageTableEntryFlags::present());
            let ghost a_mid = *frame_allocator;
            let ghost t_before = *page_table;
            let mapped = page_table.map_to(frame, page, flags, frame_allocator);
            proof {
                A::lemma_takes_trans(a0, a_mid, *frame_allocator);
                assert(stack_pages(s, n)[k] == page.address.0);
                assert(stack_flags(n)[k] == flags.bits);
            }
            match mapped {
                Ok(flusher) => flusher.ignore(),
                Err(err) => {
                    proof {
                        assert(M::fails_to_map(t_before, *page_table, stack_pages(s, n)[k], frame.address.0, stack_flags(n)[k], err));
                    }
                    return None;
                },
            }
            proof {
                lemma_run_step(
                    a0,
                    stack_pages(s, n),
                    stack_flags(n),
                    k,
                    states,
                    frames,
                    pre,
                    post,
                    *page_table,
                    a_before,
                    a_mid,
                    *frame_allocator,
                    frame.address.0,
                );
                states = states.push(*page_table);
                frames = frames.push(frame.address.0);
                pre = pre.push(a_before);
                post = post.push(a_mid);
                k = k + 1;
            }
            address = address + 0x1000;
        }
        proof {
            lemma_stack_pages_writable(n);
            assert forall|i: int| 0 <= i < n implies (#[trigger] stack_flags(n)[i]) & 3 == 3 by {
                let f = stack_flags(n)[i];
                assert(f & 1 == 1 && (f >> 1u64) & 1 == 1 ==> f & 3 == 3) by (bit_vector);
            }
            assert(k == n);
            assert(mapped_run(t0, a0, stack_pages(s, n), stack_flags(n), n, *page_table, *frame_allocator));
        }
        Some(Stack::new(VirtualAddress::new(last), pages_cnt * 0x1000))
    }
}

} // verus!
