//! Page table entries, their flags and page tables.
use vstd::prelude::*;
use core::ops::BitOr;
use vstd::std_specs::ops::BitOrSpecImpl;
use crate::bits::{low_mask, u64_get_bits};
use crate::memory::{
    frame_base, Address, FrameAllocator, Page, PageSize, PhysicalAddress, PhysicalFrame, Size2MiB, Size4KiB, VirtualAddress,
};

verus! {

/// Every bit that has a meaning as a page table entry flag: bits 0..12 and 52..64.
pub const PAGE_TABLE_ENTRY_FLAG_BITS: u64 = 0xfff0_0000_0000_0fff;

/// The bits of an entry that hold a physical address: bits 12..48.
pub const PAGE_TABLE_ENTRY_ADDRESS_BITS: u64 = 0x0000_ffff_ffff_f000;

/// Flags of a page table entry.
#[derive(Clone, Copy, Debug, PartialEq, Eq, Structural)]
pub struct PageTableEntryFlags {
    pub bits: u64,
}

impl PageTableEntryFlags {
    pub fn none() -> (r: Self)
        ensures
            r.bits == 0,
    {
        Self { bits: 0 }
    }

    /// The mapped frame or page table is loaded in memory.
    pub fn present() -> (r: Self)
        ensures
            r.bits == 1,
    {
        Self { bits: 1 }
    }

    /// Writes to the mapped frames are allowed.
    pub fn writable() -> (r: Self)
        ensures
            r.bits == 2,
    {
        Self { bits: 2 }
    }

    /// Accesses from ring 3 are allowed.
    pub fn user_accessible() -> (r: Self)
        ensures
            r.bits == 4,
    {
        Self { bits: 4 }
    }

    /// Write-through caching.
    pub fn write_through() -> (r: Self)
        ensures
            r.bits == 8,
    {
        Self { bits: 8 }
    }

    /// Caching disabled.
    pub fn no_cache() -> (r: Self)
        ensures
            r.bits == 0x10,
    {
        Self { bits: 0x10 }
    }

    /// Set by the CPU when the entry is used.
    pub fn accessed() -> (r: Self)
        ensures
            r.bits == 0x20,
    {
        Self { bits: 0x20 }
    }

    /// Set by the CPU on a write to the mapped frame.
    pub fn dirty() -> (r: Self)
        ensures
            r.bits == 0x40,
    {
        Self { bits: 0x40 }
    }

    /// The entry maps a huge frame instead of a page table.
    pub fn huge_page() -> (r: Self)
        ensures
            r.bits == 0x80,
    {
        Self { bits: 0x80 }
    }

    /// The mapping is kept in the TLB across address space switches.
    pub fn global() -> (r: Self)
        ensures
            r.bits == 0x100,
    {
        Self { bits: 0x100 }
    }

    /// Code execution from the mapped frames is forbidden.
    pub fn no_execute() -> (r: Self)
        ensures
            r.bits == 0x8000_0000_0000_0000,
    {
        Self { bits: 0x8000_0000_0000_0000 }
    }

    /// The flags that `bits` holds, unknown bits dropped.
    pub fn from_bits_truncate(bits: u64) -> (r: Self)
        ensures
            r.bits == bits & PAGE_TABLE_ENTRY_FLAG_BITS,
    {
        Self { bits: bits & PAGE_TABLE_ENTRY_FLAG_BITS }
    }

    /// The flags that `bits` holds, unknown bits kept.
    pub fn from_bits_retain(bits: u64) -> (r: Self)
        ensures
            r.bits == bits,
    {
        Self { bits }
    }

    pub fn bits(&self) -> (r: u64)
        ensures
            r == self.bits,
    {
        self.bits
    }

    pub fn is_empty(&self) -> (r: bool)
        ensures
            r == (self.bits == 0),
    {
        self.bits == 0
    }

    /// Whether every flag of `other` is set in `self`.
    pub fn contains(&self, other: PageTableEntryFlags) -> (r: bool)
        ensures
            r == (self.bits & other.bits == other.bits),
    {
        self.bits & other.bits == other.bits
    }

    /// Whether `self` and `other` have a flag in common.
    pub fn intersects(&self, other: PageTableEntryFlags) -> (r: bool)
        ensures
            r == (self.bits & other.bits != 0),
    {
        self.bits & other.bits != 0
    }

    pub fn union(self, other: PageTableEntryFlags) -> (r: Self)
        ensures
            r.bits == self.bits | other.bits,
    {
        Self { bits: self.bits | other.bits }
    }

    pub fn insert(&mut self, other: PageTableEntryFlags)
        ensures
            final(self).bits == old(self).bits | other.bits,
    {
        self.bits = self.bits | other.bits;
    }

    pub fn remove(&mut self, other: PageTableEntryFlags)
        ensures
            final(self).bits == old(self).bits & !other.bits,
    {
        self.bits = self.bits & !other.bits;
    }
}

impl BitOr for PageTableEntryFlags {
    type Output = Self;

    fn bitor(self, rhs: Self) -> (r: Self) {
        Self { bits: self.bits | rhs.bits }
    }
}

impl BitOrSpecImpl for PageTableEntryFlags {
    open spec fn obeys_bitor_spec() -> bool {
        true
    }

    open spec fn bitor_req(self, rhs: Self) -> bool {
        true
    }

    open spec fn bitor_spec(self, rhs: Self) -> Self {
        PageTableEntryFlags { bits: self.bits | rhs.bits }
    }
}

/// The physical address held in bits 12..48 of an entry.
pub open spec fn entry_address(v: u64) -> u64 {
    v & PAGE_TABLE_ENTRY_ADDRESS_BITS
}

/// One entry of a page table.
#[derive(Clone, Copy, Debug, PartialEq, Eq, Structural)]
pub struct PageTableEntry(pub u64);

impl PageTableEntry {
    pub fn new(val: u64) -> (r: PageTableEntry)
        ensures
            r.0 == val,
    {
        PageTableEntry(val)
    }

    pub fn is_present(&self) -> (r: bool)
        ensures
            r == (self.0 & 1 != 0),
    {
        (self.0 & PageTableEntryFlags::present().bits()) != 0
    }

    pub fn is_unused(&self) -> (r: bool)
        ensures
            r == (self.0 == 0),
    {
        self.0 == 0
    }

    /// The physical address the entry points to.
    pub fn address(&self) -> (r: PhysicalAddress)
        ensures
            r.0 == entry_address(self.0),
    {
        let bits = u64_get_bits(self.0, 12, 48);
        proof {
            let x = self.0;
            assert(((1u64 << 36u64) - 1) as u64 == 0xf_ffff_ffffu64) by (bit_vector);
            assert((x >> 12u64) & 0xf_ffff_ffffu64 <= 0xf_ffff_ffffu64) by (bit_vector);
            assert(((x >> 12u64) & 0xf_ffff_ffffu64) << 12u64 == x & 0x0000_ffff_ffff_f000u64)
                by (bit_vector);
        }
        PhysicalAddress::new(bits << 12)
    }

    /// The physical address the entry points to.
    pub fn physical_address(&self) -> (r: PhysicalAddress)
        ensures
            r.0 == entry_address(self.0),
    {
        self.address()
    }

    /// The 4 KiB frame the entry points to.
    pub fn physical_frame(&self) -> (r: PhysicalFrame<Size4KiB>)
        ensures
            r.address.0 == entry_address(self.0),
    {
        let a = self.address();
        proof {
            let x = self.0;
            assert((x & 0x0000_ffff_ffff_f000u64) % 4096 == 0) by (bit_vector);
        }
        PhysicalFrame::containing_address(a)
    }

    /// Points the entry at `addr` with `flags`.
    pub fn set_address(&mut self, addr: PhysicalAddress, flags: PageTableEntryFlags)
        ensures
            final(self).0 == addr.0 | flags.bits,
    {
        self.0 = addr.as_u64() | flags.bits();
    }

    /// Points the entry at `frame` with `flags`.
    pub fn set_frame(&mut self, frame: PhysicalFrame<Size4KiB>, flags: PageTableEntryFlags)
        ensures
            final(self).0 == frame.address.0 | flags.bits,
    {
        self.0 = frame.address.as_u64() | flags.bits();
    }

    /// The known flags of the entry.
    pub fn flags(&self) -> (r: PageTableEntryFlags)
        ensures
            r.bits == self.0 & PAGE_TABLE_ENTRY_FLAG_BITS,
    {
        PageTableEntryFlags::from_bits_truncate(self.0)
    }

    /// Replaces the whole entry with `flags`.
    pub fn set_flags(&mut self, flags: PageTableEntryFlags)
        ensures
            final(self).0 == flags.bits,
    {
        self.0 = flags.bits();
    }

    /// Sets `flags` in addition to what the entry holds.
    pub fn add_flags(&mut self, flags: PageTableEntryFlags)
        ensures
            final(self).0 == old(self).0 | flags.bits,
    {
        self.0 = self.0 | flags.bits();
    }

    pub fn set_unused(&mut self)
        ensures
            final(self).0 == 0,
    {
        self.0 = 0;
    }
}

/// The number of entries of a page table.
pub const TABLE_ENTRY_COUNT: usize = 512;

/// A page table: 512 entries.
#[derive(Clone, Copy)]
pub struct PageTable {
    pub entries: [PageTableEntry; 512],
}

impl PageTable {
    /// A table with every entry unused.
    pub fn empty() -> (r: Self)
        ensures
            forall|i: int| 0 <= i < 512 ==> #[trigger] r.entries@[i].0 == 0,
    {
        let unused = PageTableEntry(0);
        let entries = [unused; 512];
        proof {
            let filled = vstd::array::spec_array_fill_for_copy_type::<PageTableEntry, 512>(unused);
            assert(forall|i: int| 0 <= i < 512 ==> filled@[i] == unused);
            assert(entries == filled);
        }
        Self { entries }
    }

    pub fn len(&self) -> (r: usize)
        ensures
            r == 512,
    {
        self.entries.len()
    }

    /// The entry at `index`.
    pub fn index(&self, index: usize) -> (r: PageTableEntry)
        requires
            index < 512,
        ensures
            r == self.entries@[index as int],
    {
        self.entries[index]
    }

    /// Replaces the entry at `index`.
    pub fn set(&mut self, index: usize, entry: PageTableEntry)
        requires
            index < 512,
        ensures
            final(self).entries@ == old(self).entries@.update(index as int, entry),
    {
        self.entries[index] = entry;
    }
}

/// Why a mapping could not be made.
#[derive(Debug, PartialEq, Eq, Structural)]
pub enum MappingError {
    FrameAllocationFailed,
    PageAlreadyMapped,
}

/// Why a page could not be unmapped.
#[derive(Debug, PartialEq, Eq, Structural)]
pub enum UnmappingError {
    /// The page is not mapped to a frame.
    PageNotMapped,
}

/// Why a page could not be translated.
#[derive(Debug, PartialEq, Eq, Structural)]
pub enum TranslationError {
    NotMapped,
}

/// A page whose mapping changed: its TLB entry has to be flushed or ignored.
pub struct TlbFlusher<S: PageSize>(pub Page<S>);

impl<S: PageSize> TlbFlusher<S> {
    pub fn new(page: Page<S>) -> (r: Self)
        ensures
            r.0 == page,
    {
        TlbFlusher(page)
    }

    /// The page whose TLB entry is concerned.
    pub fn page(&self) -> (r: Page<S>)
        ensures
            r == self.0,
    {
        self.0
    }

    /// Drops the flush.
    pub fn ignore(self) {
    }
}


/// Maps pages of size `S` to frames.
pub trait Mapper<S: PageSize>: Sized {
    /// Whether `unmap` can walk down to the entry of the page at `page`.
    spec fn can_unmap(&self, page: u64) -> bool;

    /// `after` is `before` with the page at `page` mapped to the frame at
    /// `frame` with the entry flags `flags`, and with the tables that were
    /// missing on the way made from frames of the allocator.
    spec fn maps_page(before: Self, after: Self, page: u64, frame: u64, flags: u64) -> bool;

    /// `after` is what `before` becomes when mapping the page at `page` to the
    /// frame at `frame` with `flags` fails with `e`.
    spec fn fails_to_map(before: Self, after: Self, page: u64, frame: u64, flags: u64, e: MappingError) -> bool;

    /// Maps `to` to `from` with `flags`, taking frames for missing tables
    /// from `frame_allocator`.
    fn map_to<A: FrameAllocator<Size4KiB>>(
        &mut self,
        from: PhysicalFrame<S>,
        to: Page<S>,
        flags: PageTableEntryFlags,
        frame_allocator: &mut A,
    ) -> (r: Result<TlbFlusher<S>, MappingError>)
        ensures
            r matches Ok(f) ==> f.0 == to,
            r is Ok ==> Self::maps_page(*old(self), *final(self), to.address.0, from.address.0, flags.bits),
            r matches Err(e) ==> Self::fails_to_map(*old(self), *final(self), to.address.0, from.address.0, flags.bits, e),
            A::takes(*old(frame_allocator), *final(frame_allocator)),
    ;

    /// Maps the page at the same address as `frame` to it: what `map_to`
    /// does with that page, whose flusher names the page.
    fn identity_map<A: FrameAllocator<Size4KiB>>(
        &mut self,
        frame: PhysicalFrame<S>,
        flags: PageTableEntryFlags,
        frame_allocator: &mut A,
    ) -> (r: Result<TlbFlusher<S>, MappingError>)
        ensures
            r matches Ok(f) ==> f.0.address.0 == frame_base::<S>(frame.address.0),
            r is Ok ==> Self::maps_page(*old(self), *final(self), frame_base::<S>(frame.address.0), frame.address.0, flags.bits),
    {
        let page = Page::containing_address(VirtualAddress::new(frame.address.as_u64()));
        self.map_to(frame, page, flags, frame_allocator)
    }

    /// Removes the mapping of `page`.
    fn unmap(&mut self, page: Page<S>) -> Result<(PhysicalFrame<S>, TlbFlusher<S>), UnmappingError>
        requires
            old(self).can_unmap(page.address.0),
    ;
}

/// The tables `states` go one from the next through mappings made in turn:
/// the `i`-th maps `pages[i]` to `frames[i]` with the flags `flags[i]`.
pub open spec fn maps_in_turn<S: PageSize, M: Mapper<S>>(
    states: Seq<M>,
    pages: Seq<u64>,
    frames: Seq<u64>,
    flags: Seq<u64>,
) -> bool {
    &&& states.len() == pages.len() + 1
    &&& frames.len() == pages.len()
    &&& flags.len() == pages.len()
    &&& forall|i: int|
        #![trigger frames[i]]
        0 <= i < pages.len() ==> M::maps_page(states[i], states[i + 1], pages[i], frames[i], flags[i])
}

/// The frame allocator goes from `start` to `end` handing out `frames` in
/// turn: the `k`-th from `pre[k]` to `post[k]`, frames for other uses (page
/// tables) being taken in between.
pub open spec fn gives_in_turn<A: FrameAllocator<Size4KiB>>(
    start: A,
    end: A,
    pre: Seq<A>,
    post: Seq<A>,
    frames: Seq<u64>,
) -> bool {
    &&& pre.len() == frames.len()
    &&& post.len() == frames.len()
    &&& frames.len() == 0 ==> A::takes(start, end)
    &&& frames.len() > 0 ==> A::takes(start, pre[0]) && A::takes(post.last(), end)
    &&& forall|k: int| #![trigger frames[k]] 0 <= k < frames.len() ==> A::gives(pre[k], post[k], frames[k])
    &&& forall|k: int| #![trigger pre[k]] 0 < k < frames.len() ==> A::takes(post[k - 1], pre[k])
}

/// A run of mappings: the page table `t0` becomes `t` and the frame
/// allocator `a0` becomes `a`, the first `k` of `pages` being mapped in turn,
/// each with its `flags`, to the frame the allocator handed out just before.
pub open spec fn mapped_run<M: Mapper<Size4KiB>, A: FrameAllocator<Size4KiB>>(
    t0: M,
    a0: A,
    pages: Seq<u64>,
    flags: Seq<u64>,
    k: nat,
    t: M,
    a: A,
) -> bool {
    exists|states: Seq<M>, frames: Seq<u64>, pre: Seq<A>, post: Seq<A>|
        #![trigger maps_in_turn::<Size4KiB, M>(states, pages.take(k as int), frames, flags.take(k as int)), gives_in_turn(a0, a, pre, post, frames)]
        {
            &&& k <= pages.len()
            &&& states[0] == t0
            &&& states.last() == t
            &&& maps_in_turn::<Size4KiB, M>(states, pages.take(k as int), frames, flags.take(k as int))
            &&& gives_in_turn(a0, a, pre, post, frames)
        }
}

/// One more step of a run of mappings: the allocator hands out `f`, then
/// the next page is mapped to it.
pub proof fn lemma_run_step<M: Mapper<Size4KiB>, A: FrameAllocator<Size4KiB>>(
    a0: A,
    pages: Seq<u64>,
    flags: Seq<u64>,
    k: int,
    states: Seq<M>,
    frames: Seq<u64>,
    pre: Seq<A>,
    post: Seq<A>,
    t_new: M,
    a_before: A,
    a_mid: A,
    a_end: A,
    f: u64,
)
    requires
        0 <= k < pages.len(),
        k < flags.len(),
        maps_in_turn::<Size4KiB, M>(states, pages.take(k), frames, flags.take(k)),
        gives_in_turn(a0, a_before, pre, post, frames),
        A::gives(a_before, a_mid, f),
        M::maps_page(states.last(), t_new, pages[k], f, flags[k]),
        A::takes(a_mid, a_end),
    ensures
        maps_in_turn::<Size4KiB, M>(states.push(t_new), pages.take(k + 1), frames.push(f), flags.take(k + 1)),
        gives_in_turn(a0, a_end, pre.push(a_before), post.push(a_mid), frames.push(f)),
        states.push(t_new)[0] == states[0],
{
    let s2 = states.push(t_new);
    let f2 = frames.push(f);
    assert forall|i: int| #![trigger f2[i]] 0 <= i < k + 1 implies M::maps_page(
        s2[i],
        s2[i + 1],
        pages.take(k + 1)[i],
        f2[i],
        flags.take(k + 1)[i],
    ) by {
        if i < k {
            assert(frames[i] == f2[i]);
        }
    }
    let p2 = pre.push(a_before);
    let q2 = post.push(a_mid);
    assert forall|i: int| #![trigger f2[i]] 0 <= i < f2.len() implies A::gives(p2[i], q2[i], f2[i]) by {
        if i < k {
            assert(frames[i] == f2[i]);
        }
    }
    assert forall|i: int| #![trigger p2[i]] 0 < i < f2.len() implies A::takes(q2[i - 1], p2[i]) by {
        if i < k {
            assert(pre[i] == p2[i]);
        }
    }
}

/// Maps pages of both sizes.
pub trait MapperAllSizes: Mapper<Size4KiB> + Mapper<Size2MiB> {

}

impl<T: Mapper<Size4KiB> + Mapper<Size2MiB>> MapperAllSizes for T {

}

/// Looks up what pages of size `S` are mapped to.
pub trait Translator<S: PageSize> {
    /// The frame and flags of `page`.
    fn translate(&self, page: Page<S>) -> Result<(PhysicalFrame<S>, PageTableEntryFlags), TranslationError>;
}

/// Looks up pages of both sizes.
pub trait TranslatorAllSizes: Translator<Size4KiB> + Translator<Size2MiB> {

}

impl<T: Translator<Size4KiB> + Translator<Size2MiB>> TranslatorAllSizes for T {

}

} // verus!
