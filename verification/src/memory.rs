//! Physical and virtual addresses, pages, frames and memory regions.
use vstd::prelude::*;
use core::marker::PhantomData;
use core::ops::{Add, Range, Rem, Sub};
use vstd::std_specs::ops::{AddSpecImpl, RemSpecImpl, SubSpecImpl};
use crate::bits::{is_pow2, lemma_align_down, lemma_align_up, lemma_and_mask_is_mod, lemma_page_sizes_pow2, low_mask, u64_get_bits};

verus! {

pub const KIB: u64 = 1024;
pub const MIB: u64 = 1048576;
pub const GIB: u64 = 1073741824;
pub const TIB: u64 = 1099511627776;

/// Something that hands out physical frames of size `S`.
pub trait FrameAllocator<S: PageSize>: Sized {
    /// Whether the frame starting at `frame` can be given back.
    spec fn can_deallocate(&self, frame: u64) -> bool;

    /// `after` is `before` having handed out frames and taken none back.
    spec fn takes(before: Self, after: Self) -> bool;

    proof fn lemma_takes_refl(a: Self)
        ensures
            Self::takes(a, a),
    ;

    proof fn lemma_takes_trans(a: Self, b: Self, c: Self)
        requires
            Self::takes(a, b),
            Self::takes(b, c),
        ensures
            Self::takes(a, c),
    ;

    /// `after` is `before` having handed out the frame at `frame`.
    spec fn gives(before: Self, after: Self, frame: u64) -> bool;

    proof fn lemma_gives_takes(a: Self, b: Self, frame: u64)
        requires
            Self::gives(a, b, frame),
        ensures
            Self::takes(a, b),
    ;

    /// `after` is `before` having found no frame left to hand out.
    spec fn runs_dry(before: Self, after: Self) -> bool;

    /// Allocate a frame, if one is left.
    fn allocate_frame(&mut self) -> (r: Option<PhysicalFrame<S>>)
        ensures
            Self::takes(*old(self), *final(self)),
            r matches Some(f) ==> Self::gives(*old(self), *final(self), f.address.0),
            r is None ==> Self::runs_dry(*old(self), *final(self)),
    ;

    /// Give a frame back.
    fn deallocate_frame(&mut self, frame: PhysicalFrame<S>)
        requires
            old(self).can_deallocate(frame.address.0),
    ;
}

/// A contiguous range of memory with a start and a size.
pub trait MemoryRegion: Copy {
    spec fn start_spec(&self) -> u64;

    spec fn size_spec(&self) -> nat;

    spec fn usable_spec(&self) -> bool;

    fn start(&self) -> (r: u64)
        ensures
            r == self.start_spec(),
    ;

    fn set_start(&mut self, start: u64)
        ensures
            final(self).start_spec() == start,
            final(self).size_spec() == old(self).size_spec(),
            final(self).usable_spec() == old(self).usable_spec(),
    ;

    fn end(&self) -> (r: u64)
        requires
            self.start_spec() + self.size_spec() <= u64::MAX,
        ensures
            r == self.start_spec() + self.size_spec(),
    ;

    fn size(&self) -> (r: usize)
        requires
            self.size_spec() <= usize::MAX,
        ensures
            r == self.size_spec(),
    ;

    fn set_size(&mut self, size: usize)
        ensures
            final(self).size_spec() == size,
            final(self).start_spec() == old(self).start_spec(),
            final(self).usable_spec() == old(self).usable_spec(),
    ;

    fn contains(&self, address: u64) -> (r: bool)
        requires
            self.start_spec() + self.size_spec() <= u64::MAX,
        ensures
            r == (self.start_spec() <= address && address <= self.start_spec() + self.size_spec()),
    ;

    fn is_usable(&self) -> (r: bool)
        ensures
            r == self.usable_spec(),
    ;
}

#[derive(Clone, Copy, Debug)]
pub struct Region {
    pub start: u64,
    pub size: usize,
}

impl Region {
    pub fn new(start: u64, size: usize) -> (r: Region)
        ensures
            r.start == start,
            r.size == size,
    {
        Region { start, size }
    }
}

impl MemoryRegion for Region {
    open spec fn start_spec(&self) -> u64 {
        self.start
    }

    open spec fn size_spec(&self) -> nat {
        self.size as nat
    }

    open spec fn usable_spec(&self) -> bool {
        true
    }

    fn start(&self) -> (r: u64) {
        self.start
    }

    fn end(&self) -> (r: u64) {
        self.start + self.size as u64
    }

    fn size(&self) -> (r: usize) {
        self.size
    }

    fn contains(&self, address: u64) -> (r: bool) {
        self.start() <= address && address <= self.end()
    }

    fn is_usable(&self) -> (r: bool) {
        true
    }

    fn set_start(&mut self, start: u64) {
        self.start = start
    }

    fn set_size(&mut self, size: usize) {
        self.size = size
    }
}

/// A range of physical memory.
pub struct PhysicalRange {
    pub start: PhysicalAddress,
    pub size: usize,
}

impl PhysicalRange {
    pub fn new(start: PhysicalAddress, size: usize) -> (r: Self)
        ensures
            r.start == start,
            r.size == size,
    {
        Self { start, size }
    }

    pub fn start(&self) -> (r: PhysicalAddress)
        ensures
            r == self.start,
    {
        self.start
    }

    pub fn end(&self) -> (r: PhysicalAddress)
        requires
            self.start.0 + self.size <= u64::MAX,
        ensures
            r.0 == self.start.0 + self.size,
    {
        self.start + self.size
    }

    /// Whether `address` lies in the half-open range.
    pub fn contains(&self, address: PhysicalAddress) -> (r: bool)
        requires
            self.start.0 + self.size <= u64::MAX,
        ensures
            r == (self.start.0 <= address.0 && address.0 < self.start.0 + self.size),
    {
        self.start().0 <= address.0 && address.0 < self.end().0
    }
}

/// A range of virtual memory.
#[derive(Clone, Copy, Debug)]
pub struct VirtualRange {
    pub start: VirtualAddress,
    pub size: usize,
}

impl VirtualRange {
    pub fn new(start: VirtualAddress, size: usize) -> (r: Self)
        ensures
            r.start == start,
            r.size == size,
    {
        Self { start, size }
    }

    pub fn new_empty() -> (r: Self)
        ensures
            r.start.0 == 0,
            r.size == 0,
    {
        Self { start: VirtualAddress::new(0), size: 0 }
    }

    pub fn start(&self) -> (r: VirtualAddress)
        ensures
            r == self.start,
    {
        self.start
    }

    pub fn end(&self) -> (r: VirtualAddress)
        requires
            self.start.0 + self.size <= u64::MAX,
        ensures
            r.0 == self.start.0 + self.size,
    {
        self.start + self.size
    }

    /// Whether `address` lies in the half-open range.
    pub fn contains(&self, address: VirtualAddress) -> (r: bool)
        requires
            self.start.0 + self.size <= u64::MAX,
        ensures
            r == (self.start.0 <= address.0 && address.0 < self.start.0 + self.size),
    {
        self.start().0 <= address.0 && address.0 < self.end().0
    }
}

/// What a physical memory region may be used for.
#[derive(Clone, Copy, Debug, PartialEq, Eq, Structural)]
pub enum PhysicalMemoryRegionType {
    /// Reserved, e.g. by firmware.
    Reserved,
    /// Free to be used by the operating system.
    Free,
    /// Used by the bootloader or kernel.
    Used,
}

impl Default for PhysicalMemoryRegionType {
    fn default() -> (r: Self)
        ensures
            r == PhysicalMemoryRegionType::Reserved,
    {
        PhysicalMemoryRegionType::Reserved
    }
}

/// A region of physical memory as described by the memory map.
#[derive(Clone, Copy, Debug)]
pub struct PhysicalMemoryRegion {
    pub start: u64,
    pub size: u64,
    pub typ: PhysicalMemoryRegionType,
}

impl Default for PhysicalMemoryRegion {
    fn default() -> (r: Self)
        ensures
            r.start == 0,
            r.size == 0,
            r.typ == PhysicalMemoryRegionType::Reserved,
    {
        Self { start: 0, size: 0, typ: PhysicalMemoryRegionType::Reserved }
    }
}

impl PhysicalMemoryRegion {
    pub fn new(start: u64, size: u64, typ: PhysicalMemoryRegionType) -> (r: Self)
        ensures
            r.start == start,
            r.size == size,
            r.typ == typ,
    {
        Self { start, size, typ }
    }

    pub fn address(&self) -> (r: PhysicalAddress)
        ensures
            r.0 == self.start,
    {
        PhysicalAddress(self.start)
    }
}

impl MemoryRegion for PhysicalMemoryRegion {
    open spec fn start_spec(&self) -> u64 {
        self.start
    }

    open spec fn size_spec(&self) -> nat {
        self.size as nat
    }

    open spec fn usable_spec(&self) -> bool {
        self.typ == PhysicalMemoryRegionType::Free
    }

    fn start(&self) -> (r: u64) {
        self.start
    }

    fn end(&self) -> (r: u64) {
        self.start + self.size
    }

    fn size(&self) -> (r: usize) {
        self.size as usize
    }

    fn contains(&self, address: u64) -> (r: bool) {
        self.start() <= address && address <= self.end()
    }

    fn is_usable(&self) -> (r: bool) {
        self.typ == PhysicalMemoryRegionType::Free
    }

    fn set_start(&mut self, start: u64) {
        self.start = start
    }

    fn set_size(&mut self, size: usize) {
        self.size = size as u64
    }
}

/// A size rounded up to a multiple of the 4 KiB page size.
pub struct PageAlignedSize(pub usize);

impl PageAlignedSize {
    pub fn new(size: usize) -> (r: Self)
        requires
            size + 0x1000 <= usize::MAX,
        ensures
            r.0 % 0x1000 == 0,
            size <= r.0 < size + 0x1000,
    {
        Self(PageAlignedSize::align_up(size))
    }

    /// Rounds `size` up to the next multiple of 4096.
    pub fn align_up(size: usize) -> (r: usize)
        requires
            size + 0xfff <= usize::MAX,
        ensures
            r % 0x1000 == 0,
            size <= r < size + 0x1000,
    {
        let r = (size + (0x1000 - 1)) & !(0x1000usize - 1);
        proof {
            let z = (size + 0xfff) as usize;
            assert(z & !0xfffusize == z - z % 0x1000 && z % 0x1000 < 0x1000) by (bit_vector);
            crate::bits::lemma_multiple_minus_mod(z as int, 0x1000);
        }
        r
    }

    pub fn inner(&self) -> (r: usize)
        ensures
            r == self.0,
    {
        self.0
    }

    pub fn in_bytes(&self) -> (r: usize)
        ensures
            r == self.0,
    {
        self.0
    }
}

/// A page size: 4 KiB or 2 MiB.
pub trait PageSize: Copy + Sized {
    spec fn size_spec() -> usize;

    proof fn lemma_size()
        ensures
            Self::size_spec() == 0x1000 || Self::size_spec() == 0x200000,
    ;

    fn size() -> (r: usize)
        ensures
            r == Self::size_spec(),
    ;

    /// Whether `val` is a multiple of the page size.
    fn is_aligned(val: usize) -> (r: bool)
        ensures
            r == (val % Self::size_spec() == 0),
    {
        proof {
            Self::lemma_size();
        }
        let s = Self::size();
        let r = val & (s - 1) == 0;
        proof {
            if s == 0x1000 {
                assert((val & 0xfffusize == 0) == (val % 0x1000 == 0)) by (bit_vector);
            } else {
                assert((val & 0x1fffffusize == 0) == (val % 0x200000 == 0)) by (bit_vector);
            }
        }
        r
    }
}

#[derive(Clone, Copy, Debug)]
pub struct Size4KiB;

impl PageSize for Size4KiB {
    open spec fn size_spec() -> usize {
        0x1000
    }

    proof fn lemma_size() {
    }

    fn size() -> (r: usize) {
        0x1000
    }
}

#[derive(Clone, Copy, Debug)]
pub struct Size2MiB;

impl PageSize for Size2MiB {
    open spec fn size_spec() -> usize {
        0x200000
    }

    proof fn lemma_size() {
    }

    fn size() -> (r: usize) {
        0x200000
    }
}

/// An address given as a plain 64-bit value.
pub trait Address {
    spec fn value(&self) -> u64;

    fn as_u64(&self) -> (r: u64)
        ensures
            r == self.value(),
    ;
}

/// The address `x` rounded down to a multiple of `align` by clearing the low bits.
pub open spec fn align_down_spec(x: u64, align: u64) -> u64 {
    x & !((align - 1) as u64)
}

/// The address `x` rounded up to a multiple of `align` by clearing the low bits.
pub open spec fn align_up_spec(x: u64, align: u64) -> u64 {
    ((x + align - 1) as u64) & !((align - 1) as u64)
}

#[derive(Copy, Clone, Debug, PartialEq, Eq, Structural)]
pub struct PhysicalAddress(pub u64);

impl PhysicalAddress {
    pub fn new(address: u64) -> (r: Self)
        ensures
            r.0 == address,
    {
        Self(address)
    }

    pub fn align_down(&self, align: u64) -> (r: PhysicalAddress)
        requires
            align >= 1,
        ensures
            r.0 == align_down_spec(self.0, align),
            is_pow2(align) ==> r.0 == self.0 - self.0 % align,
    {
        let addr = self.0 & !(align - 1);
        proof {
            if is_pow2(align) {
                lemma_align_down(self.0, align);
            }
        }
        PhysicalAddress(addr)
    }

    pub fn align_up(&self, align: u64) -> (r: PhysicalAddress)
        requires
            align >= 1,
            self.0 + align - 1 <= u64::MAX,
        ensures
            r.0 == align_up_spec(self.0, align),
            is_pow2(align) ==> r.0 % align == 0 && self.0 <= r.0 < self.0 + align,
    {
        let addr = (self.0 + (align - 1)) & !(align - 1);
        proof {
            if is_pow2(align) {
                lemma_align_up(self.0, align);
            }
        }
        PhysicalAddress(addr)
    }

    pub fn inner(&self) -> (r: u64)
        ensures
            r == self.0,
    {
        self.0
    }

    /// Adds `rhs` to the address in place.
    pub fn add_assign(&mut self, rhs: u64)
        requires
            old(self).0 + rhs <= u64::MAX,
        ensures
            final(self).0 == old(self).0 + rhs,
    {
        self.0 = self.0 + rhs;
    }
}

impl Address for PhysicalAddress {
    open spec fn value(&self) -> u64 {
        self.0
    }

    fn as_u64(&self) -> (r: u64) {
        proof {
            assert(self.value() == self.0);
        }
        self.0
    }
}

impl Add<u64> for PhysicalAddress {
    type Output = Self;

    fn add(self, rhs: u64) -> (r: Self) {
        Self(self.0 + rhs)
    }
}

impl AddSpecImpl<u64> for PhysicalAddress {
    open spec fn obeys_add_spec() -> bool {
        true
    }

    open spec fn add_req(self, rhs: u64) -> bool {
        self.0 + rhs <= u64::MAX
    }

    open spec fn add_spec(self, rhs: u64) -> Self {
        PhysicalAddress((self.0 + rhs) as u64)
    }
}

impl Add<PhysicalAddress> for u64 {
    type Output = PhysicalAddress;

    fn add(self, rhs: PhysicalAddress) -> (r: PhysicalAddress) {
        PhysicalAddress(self + rhs.0)
    }
}

impl AddSpecImpl<PhysicalAddress> for u64 {
    open spec fn obeys_add_spec() -> bool {
        true
    }

    open spec fn add_req(self, rhs: PhysicalAddress) -> bool {
        self + rhs.0 <= u64::MAX
    }

    open spec fn add_spec(self, rhs: PhysicalAddress) -> PhysicalAddress {
        PhysicalAddress((self + rhs.0) as u64)
    }
}

impl Add<usize> for PhysicalAddress {
    type Output = Self;

    fn add(self, rhs: usize) -> (r: Self) {
        let rhs: u64 = rhs as u64;
        Self(self.0 + rhs)
    }
}

impl AddSpecImpl<usize> for PhysicalAddress {
    open spec fn obeys_add_spec() -> bool {
        true
    }

    open spec fn add_req(self, rhs: usize) -> bool {
        self.0 + rhs <= u64::MAX
    }

    open spec fn add_spec(self, rhs: usize) -> Self {
        PhysicalAddress((self.0 + rhs) as u64)
    }
}

impl Add<PhysicalAddress> for PhysicalAddress {
    type Output = Self;

    fn add(self, rhs: PhysicalAddress) -> (r: Self) {
        Self(self.0 + rhs.0)
    }
}

impl AddSpecImpl<PhysicalAddress> for PhysicalAddress {
    open spec fn obeys_add_spec() -> bool {
        true
    }

    open spec fn add_req(self, rhs: PhysicalAddress) -> bool {
        self.0 + rhs.0 <= u64::MAX
    }

    open spec fn add_spec(self, rhs: PhysicalAddress) -> Self {
        PhysicalAddress((self.0 + rhs.0) as u64)
    }
}

impl Sub<u64> for PhysicalAddress {
    type Output = Self;

    fn sub(self, rhs: u64) -> (r: Self) {
        Self(self.0 - rhs)
    }
}

impl SubSpecImpl<u64> for PhysicalAddress {
    open spec fn obeys_sub_spec() -> bool {
        true
    }

    open spec fn sub_req(self, rhs: u64) -> bool {
        rhs <= self.0
    }

    open spec fn sub_spec(self, rhs: u64) -> Self {
        PhysicalAddress((self.0 - rhs) as u64)
    }
}

impl Sub<PhysicalAddress> for PhysicalAddress {
    type Output = u64;

    fn sub(self, rhs: PhysicalAddress) -> (r: u64) {
        self.0 - rhs.0
    }
}

impl SubSpecImpl<PhysicalAddress> for PhysicalAddress {
    open spec fn obeys_sub_spec() -> bool {
        true
    }

    open spec fn sub_req(self, rhs: PhysicalAddress) -> bool {
        rhs.0 <= self.0
    }

    open spec fn sub_spec(self, rhs: PhysicalAddress) -> u64 {
        (self.0 - rhs.0) as u64
    }
}

impl Rem<u64> for PhysicalAddress {
    type Output = Self;

    fn rem(self, rhs: u64) -> (r: Self) {
        Self(self.0 % rhs)
    }
}

impl RemSpecImpl<u64> for PhysicalAddress {
    open spec fn obeys_rem_spec() -> bool {
        true
    }

    open spec fn rem_req(self, rhs: u64) -> bool {
        rhs != 0
    }

    open spec fn rem_spec(self, rhs: u64) -> Self {
        PhysicalAddress(self.0 % rhs)
    }
}

impl Rem<usize> for PhysicalAddress {
    type Output = Self;

    fn rem(self, rhs: usize) -> (r: Self) {
        let rhs: u64 = rhs as u64;
        Self(self.0 % rhs)
    }
}

impl RemSpecImpl<usize> for PhysicalAddress {
    open spec fn obeys_rem_spec() -> bool {
        true
    }

    open spec fn rem_req(self, rhs: usize) -> bool {
        rhs != 0
    }

    open spec fn rem_spec(self, rhs: usize) -> Self {
        PhysicalAddress(self.0 % (rhs as u64))
    }
}

#[derive(Copy, Clone, Debug, PartialEq, Eq, Structural)]
pub struct VirtualAddress(pub u64);

impl VirtualAddress {
    pub fn new(address: u64) -> (r: Self)
        ensures
            r.0 == address,
    {
        Self(address)
    }

    /// Whether the low bits selected by `align - 1` are clear.
    pub fn is_aligned(&self, align: u64) -> (r: bool)
        requires
            align >= 1,
        ensures
            r == (self.0 & ((align - 1) as u64) == 0),
            is_pow2(align) ==> r == (self.0 % align == 0),
    {
        proof {
            if is_pow2(align) {
                lemma_and_mask_is_mod(self.0, align);
            }
        }
        self.0 & (align - 1) == 0
    }

    pub fn align_down(&self, align: u64) -> (r: Self)
        requires
            align >= 1,
        ensures
            r.0 == align_down_spec(self.0, align),
            is_pow2(align) ==> r.0 == self.0 - self.0 % align,
    {
        let addr = self.0 & !(align - 1);
        proof {
            if is_pow2(align) {
                lemma_align_down(self.0, align);
            }
        }
        VirtualAddress(addr)
    }

    pub fn align_up(&self, align: usize) -> (r: Self)
        requires
            align >= 1,
            self.0 + align - 1 <= u64::MAX,
        ensures
            r.0 == align_up_spec(self.0, align as u64),
            is_pow2(align as u64) ==> r.0 % (align as u64) == 0 && self.0 <= r.0 < self.0 + align,
    {
        let align = align as u64;
        let addr = (self.0 + (align - 1)) & !(align - 1);
        proof {
            if is_pow2(align) {
                lemma_align_up(self.0, align);
            }
        }
        VirtualAddress(addr)
    }

    /// Index into the level 4 page table: bits 39..48.
    pub fn l4_index(&self) -> (r: usize)
        ensures
            r == (self.0 >> 39u64) & 0x1ff,
            r < 512,
    {
        let v = u64_get_bits(self.0, 39, 48);
        proof {
            lemma_mask9();
            let x = self.0;
            assert((x >> 39u64) & 0x1ffu64 < 512) by (bit_vector);
        }
        v as usize
    }

    /// Index into the level 3 page table: bits 30..39.
    pub fn l3_index(&self) -> (r: usize)
        ensures
            r == (self.0 >> 30u64) & 0x1ff,
            r < 512,
    {
        let v = u64_get_bits(self.0, 30, 39);
        proof {
            lemma_mask9();
            let x = self.0;
            assert((x >> 30u64) & 0x1ffu64 < 512) by (bit_vector);
        }
        v as usize
    }

    /// Index into the level 2 page table: bits 21..30.
    pub fn l2_index(&self) -> (r: usize)
        ensures
            r == (self.0 >> 21u64) & 0x1ff,
            r < 512,
    {
        let v = u64_get_bits(self.0, 21, 30);
        proof {
            lemma_mask9();
            let x = self.0;
            assert((x >> 21u64) & 0x1ffu64 < 512) by (bit_vector);
        }
        v as usize
    }

    /// Index into the level 1 page table: bits 12..21.
    pub fn l1_index(&self) -> (r: usize)
        ensures
            r == (self.0 >> 12u64) & 0x1ff,
            r < 512,
    {
        let v = u64_get_bits(self.0, 12, 21);
        proof {
            lemma_mask9();
            let x = self.0;
            assert((x >> 12u64) & 0x1ffu64 < 512) by (bit_vector);
        }
        v as usize
    }

    /// Adds `rhs` to the address in place.
    pub fn add_assign(&mut self, rhs: u64)
        requires
            old(self).0 + rhs <= u64::MAX,
        ensures
            final(self).0 == old(self).0 + rhs,
    {
        self.0 = self.0 + rhs;
    }
}

proof fn lemma_mask9()
    ensures
        low_mask(9) == 0x1ffu64,
{
    assert(((1u64 << 9u64) - 1) as u64 == 0x1ffu64) by (bit_vector);
}

impl Address for VirtualAddress {
    open spec fn value(&self) -> u64 {
        self.0
    }

    fn as_u64(&self) -> (r: u64) {
        self.0
    }
}

impl Add<u64> for VirtualAddress {
    type Output = Self;

    fn add(self, rhs: u64) -> (r: Self) {
        Self(self.0 + rhs)
    }
}

impl AddSpecImpl<u64> for VirtualAddress {
    open spec fn obeys_add_spec() -> bool {
        true
    }

    open spec fn add_req(self, rhs: u64) -> bool {
        self.0 + rhs <= u64::MAX
    }

    open spec fn add_spec(self, rhs: u64) -> Self {
        VirtualAddress((self.0 + rhs) as u64)
    }
}

impl Add<usize> for VirtualAddress {
    type Output = Self;

    fn add(self, rhs: usize) -> (r: Self) {
        let rhs: u64 = rhs as u64;
        Self(self.0 + rhs)
    }
}

impl AddSpecImpl<usize> for VirtualAddress {
    open spec fn obeys_add_spec() -> bool {
        true
    }

    open spec fn add_req(self, rhs: usize) -> bool {
        self.0 + rhs <= u64::MAX
    }

    open spec fn add_spec(self, rhs: usize) -> Self {
        VirtualAddress((self.0 + rhs) as u64)
    }
}

impl Add<VirtualAddress> for u64 {
    type Output = VirtualAddress;

    fn add(self, rhs: VirtualAddress) -> (r: VirtualAddress) {
        VirtualAddress(self + rhs.0)
    }
}

impl AddSpecImpl<VirtualAddress> for u64 {
    open spec fn obeys_add_spec() -> bool {
        true
    }

    open spec fn add_req(self, rhs: VirtualAddress) -> bool {
        self + rhs.0 <= u64::MAX
    }

    open spec fn add_spec(self, rhs: VirtualAddress) -> VirtualAddress {
        VirtualAddress((self + rhs.0) as u64)
    }
}

impl Sub<u64> for VirtualAddress {
    type Output = Self;

    fn sub(self, rhs: u64) -> (r: Self) {
        Self(self.0 - rhs)
    }
}

impl SubSpecImpl<u64> for VirtualAddress {
    open spec fn obeys_sub_spec() -> bool {
        true
    }

    open spec fn sub_req(self, rhs: u64) -> bool {
        rhs <= self.0
    }

    open spec fn sub_spec(self, rhs: u64) -> Self {
        VirtualAddress((self.0 - rhs) as u64)
    }
}

impl Sub<usize> for VirtualAddress {
    type Output = Self;

    fn sub(self, rhs: usize) -> (r: Self) {
        let rhs: u64 = rhs as u64;
        Self(self.0 - rhs)
    }
}

impl SubSpecImpl<usize> for VirtualAddress {
    open spec fn obeys_sub_spec() -> bool {
        true
    }

    open spec fn sub_req(self, rhs: usize) -> bool {
        rhs <= self.0
    }

    open spec fn sub_spec(self, rhs: usize) -> Self {
        VirtualAddress((self.0 - rhs) as u64)
    }
}

impl Rem<u64> for VirtualAddress {
    type Output = Self;

    fn rem(self, rhs: u64) -> (r: Self) {
        Self(self.0 % rhs)
    }
}

impl RemSpecImpl<u64> for VirtualAddress {
    open spec fn obeys_rem_spec() -> bool {
        true
    }

    open spec fn rem_req(self, rhs: u64) -> bool {
        rhs != 0
    }

    open spec fn rem_spec(self, rhs: u64) -> Self {
        VirtualAddress(self.0 % rhs)
    }
}

impl Rem<usize> for VirtualAddress {
    type Output = Self;

    fn rem(self, rhs: usize) -> (r: Self) {
        let rhs: u64 = rhs as u64;
        Self(self.0 % rhs)
    }
}

impl RemSpecImpl<usize> for VirtualAddress {
    open spec fn obeys_rem_spec() -> bool {
        true
    }

    open spec fn rem_req(self, rhs: usize) -> bool {
        rhs != 0
    }

    open spec fn rem_spec(self, rhs: usize) -> Self {
        VirtualAddress(self.0 % (rhs as u64))
    }
}

/// The distance between two addresses.
impl Sub<VirtualAddress> for VirtualAddress {
    type Output = u64;

    fn sub(self, rhs: VirtualAddress) -> (r: u64) {
        self.0 - rhs.0
    }
}

impl SubSpecImpl<VirtualAddress> for VirtualAddress {
    open spec fn obeys_sub_spec() -> bool {
        true
    }

    open spec fn sub_req(self, rhs: VirtualAddress) -> bool {
        rhs.0 <= self.0
    }

    open spec fn sub_spec(self, rhs: VirtualAddress) -> u64 {
        (self.0 - rhs.0) as u64
    }
}

impl Add<VirtualAddress> for VirtualAddress {
    type Output = Self;

    fn add(self, rhs: VirtualAddress) -> (r: Self) {
        Self(self.0 + rhs.0)
    }
}

impl AddSpecImpl<VirtualAddress> for VirtualAddress {
    open spec fn obeys_add_spec() -> bool {
        true
    }

    open spec fn add_req(self, rhs: VirtualAddress) -> bool {
        self.0 + rhs.0 <= u64::MAX
    }

    open spec fn add_spec(self, rhs: VirtualAddress) -> Self {
        VirtualAddress((self.0 + rhs.0) as u64)
    }
}

/// The frame-aligned start of the frame holding address `a`.
pub open spec fn frame_base<S: PageSize>(a: u64) -> u64 {
    (a - a % (S::size_spec() as u64)) as u64
}

/// A physical frame of size `S`.
pub struct PhysicalFrame<S: PageSize> {
    pub address: PhysicalAddress,
    pub size: PhantomData<S>,
}

impl<S: PageSize> Clone for PhysicalFrame<S> {
    fn clone(&self) -> (r: Self)
        ensures
            r == *self,
    {
        *self
    }
}

impl<S: PageSize> Copy for PhysicalFrame<S> {

}

impl<S: PageSize> PhysicalFrame<S> {
    pub fn new() -> (r: Self)
        ensures
            r.address.0 == 0,
    {
        Self { address: PhysicalAddress::new(0), size: PhantomData }
    }

    /// The frame that contains `address`.
    pub fn containing_address(address: PhysicalAddress) -> (r: Self)
        ensures
            r.address.0 == frame_base::<S>(address.0),
            r.address.0 <= address.0,
            address.0 < r.address.0 + S::size_spec(),
            r.address.0 % (S::size_spec() as u64) == 0,
    {
        proof {
            S::lemma_size();
            lemma_page_sizes_pow2();
            crate::bits::lemma_multiple_minus_mod(address.0 as int, S::size_spec() as int);
        }
        Self { address: address.align_down(S::size() as u64), size: PhantomData }
    }

    pub fn end(&self) -> (r: u64)
        requires
            self.address.0 + S::size_spec() <= u64::MAX,
        ensures
            r == self.address.0 + S::size_spec(),
    {
        self.start() + self.size() as u64
    }

    pub fn start(&self) -> (r: u64)
        ensures
            r == self.address.0,
    {
        self.address.as_u64()
    }

    pub fn address(&self) -> (r: PhysicalAddress)
        ensures
            r == self.address,
    {
        self.address
    }

    pub fn size(&self) -> (r: usize)
        ensures
            r == S::size_spec(),
    {
        S::size()
    }

    pub fn range_inclusive(start: PhysicalFrame<S>, end: PhysicalFrame<S>) -> (r:
        PhysicalFrameRangeInclusive<S>)
        ensures
            r.start == start,
            r.end == end,
    {
        PhysicalFrameRangeInclusive { start, end }
    }

    /// Moves the frame `rhs` frames up, in place.
    pub fn add_assign(&mut self, rhs: u64)
        requires
            old(self).address.0 + S::size_spec() * rhs <= u64::MAX,
        ensures
            final(self).address.0 == old(self).address.0 + S::size_spec() * rhs,
    {
        proof {
            S::lemma_size();
        }
        let step = S::size() as u64 * rhs;
        self.address.add_assign(step);
    }
}

impl<S: PageSize> Add<u64> for PhysicalFrame<S> {
    type Output = Self;

    fn add(self, rhs: u64) -> (r: Self) {
        proof {
            S::lemma_size();
        }
        PhysicalFrame::containing_address(self.address + rhs * S::size() as u64)
    }
}

impl<S: PageSize> AddSpecImpl<u64> for PhysicalFrame<S> {
    open spec fn obeys_add_spec() -> bool {
        true
    }

    open spec fn add_req(self, rhs: u64) -> bool {
        self.address.0 + rhs * S::size_spec() <= u64::MAX
    }

    open spec fn add_spec(self, rhs: u64) -> Self {
        PhysicalFrame {
            address: PhysicalAddress(frame_base::<S>((self.address.0 + rhs * S::size_spec()) as u64)),
            size: PhantomData,
        }
    }
}

impl<S: PageSize> Add<PhysicalFrame<S>> for PhysicalFrame<S> {
    type Output = u64;

    fn add(self, rhs: PhysicalFrame<S>) -> (r: u64) {
        let res = self.address + rhs.address;
        res.as_u64()
    }
}

impl<S: PageSize> AddSpecImpl<PhysicalFrame<S>> for PhysicalFrame<S> {
    open spec fn obeys_add_spec() -> bool {
        true
    }

    open spec fn add_req(self, rhs: PhysicalFrame<S>) -> bool {
        self.address.0 + rhs.address.0 <= u64::MAX
    }

    open spec fn add_spec(self, rhs: PhysicalFrame<S>) -> u64 {
        (self.address.0 + rhs.address.0) as u64
    }
}

impl<S: PageSize> Sub<u64> for PhysicalFrame<S> {
    type Output = Self;

    fn sub(self, rhs: u64) -> (r: Self) {
        proof {
            S::lemma_size();
        }
        PhysicalFrame::containing_address(self.address - rhs * S::size() as u64)
    }
}

impl<S: PageSize> SubSpecImpl<u64> for PhysicalFrame<S> {
    open spec fn obeys_sub_spec() -> bool {
        true
    }

    open spec fn sub_req(self, rhs: u64) -> bool {
        rhs * S::size_spec() <= self.address.0
    }

    open spec fn sub_spec(self, rhs: u64) -> Self {
        PhysicalFrame {
            address: PhysicalAddress(frame_base::<S>((self.address.0 - rhs * S::size_spec()) as u64)),
            size: PhantomData,
        }
    }
}

impl<S: PageSize> Sub<PhysicalFrame<S>> for PhysicalFrame<S> {
    type Output = u64;

    fn sub(self, rhs: PhysicalFrame<S>) -> (r: u64) {
        proof {
            S::lemma_size();
        }
        (self.address.as_u64() - rhs.address.as_u64()) / S::size() as u64
    }
}

impl<S: PageSize> SubSpecImpl<PhysicalFrame<S>> for PhysicalFrame<S> {
    open spec fn obeys_sub_spec() -> bool {
        true
    }

    open spec fn sub_req(self, rhs: PhysicalFrame<S>) -> bool {
        rhs.address.0 <= self.address.0
    }

    open spec fn sub_spec(self, rhs: PhysicalFrame<S>) -> u64 {
        ((self.address.0 - rhs.address.0) / (S::size_spec() as int)) as u64
    }
}

/// The frames from `start` to `end`, both included.
pub struct PhysicalFrameRangeInclusive<S: PageSize> {
    pub start: PhysicalFrame<S>,
    pub end: PhysicalFrame<S>,
}

impl<S: PageSize> Clone for PhysicalFrameRangeInclusive<S> {
    fn clone(&self) -> (r: Self)
        ensures
            r == *self,
    {
        *self
    }
}

impl<S: PageSize> Copy for PhysicalFrameRangeInclusive<S> {

}

impl<S: PageSize> PhysicalFrameRangeInclusive<S> {
    /// Yields the first frame of the range and moves the start one frame up;
    /// `None` once the start has passed the end.
    pub fn next(&mut self) -> (r: Option<PhysicalFrame<S>>)
        requires
            old(self).start.address.0 <= old(self).end.address.0 ==> old(self).start.address.0
                + S::size_spec() <= u64::MAX,
        ensures
            old(self).start.address.0 <= old(self).end.address.0 ==> {
                &&& r == Some(old(self).start)
                &&& final(self).start.address.0 == old(self).start.address.0 + S::size_spec()
                &&& final(self).end == old(self).end
            },
            old(self).start.address.0 > old(self).end.address.0 ==> r is None && *final(self)
                == *old(self),
    {
        if self.start.address.0 <= self.end.address.0 {
            let frame = self.start;
            self.start.add_assign(1);
            Some(frame)
        } else {
            None
        }
    }
}

/// A virtual page of size `S`.
pub struct Page<S: PageSize> {
    pub address: VirtualAddress,
    pub size: PhantomData<S>,
}

impl<S: PageSize> Clone for Page<S> {
    fn clone(&self) -> (r: Self)
        ensures
            r == *self,
    {
        *self
    }
}

impl<S: PageSize> Copy for Page<S> {

}

impl<S: PageSize> Page<S> {
    /// The page that contains `address`: the address rounded down to the page size.
    pub fn containing_address(address: VirtualAddress) -> (r: Self)
        ensures
            r.address.0 == frame_base::<S>(address.0),
            r.address.0 <= address.0,
            address.0 < r.address.0 + S::size_spec(),
            r.address.0 % (S::size_spec() as u64) == 0,
    {
        proof {
            S::lemma_size();
            lemma_page_sizes_pow2();
            crate::bits::lemma_multiple_minus_mod(address.0 as int, S::size_spec() as int);
        }
        Self { address: address.align_down(S::size() as u64), size: PhantomData }
    }

    /// The page that starts at `address`, which must be page aligned.
    pub fn for_address(address: VirtualAddress) -> (r: Self)
        requires
            address.0 % (S::size_spec() as u64) == 0,
        ensures
            r.address == address,
    {
        proof {
            S::lemma_size();
            lemma_page_sizes_pow2();
        }
        let aligned = address.is_aligned(S::size() as u64);
        Self { address, size: PhantomData }
    }

    pub fn range_inclusive(start: Page<S>, end: Page<S>) -> (r: PageRangeInclusive<S>)
        ensures
            r.start_page == start,
            r.end_page == end,
    {
        PageRangeInclusive { start_page: start, end_page: end }
    }

    pub fn size(self) -> (r: usize)
        ensures
            r == S::size_spec(),
    {
        S::size()
    }

    pub fn start_address(&self) -> (r: VirtualAddress)
        ensures
            r == self.address,
    {
        self.address
    }

    pub fn end_address(&self) -> (r: VirtualAddress)
        requires
            self.address.0 + S::size_spec() <= u64::MAX,
        ensures
            r.0 == self.address.0 + S::size_spec(),
    {
        self.address + self.size()
    }

    pub fn address(&self) -> (r: VirtualAddress)
        ensures
            r == self.address,
    {
        self.address
    }

    /// Moves the page `rhs` pages up, in place.
    pub fn add_assign(&mut self, rhs: u64)
        requires
            old(self).address.0 + S::size_spec() * rhs <= u64::MAX,
        ensures
            final(self).address.0 == old(self).address.0 + S::size_spec() * rhs,
    {
        proof {
            S::lemma_size();
        }
        let step = S::size() as u64 * rhs;
        self.address.add_assign(step);
    }
}

impl<S: PageSize> Add<u64> for Page<S> {
    type Output = Self;

    fn add(self, rhs: u64) -> (r: Self) {
        proof {
            S::lemma_size();
        }
        Page::containing_address(self.address + rhs * S::size() as u64)
    }
}

impl<S: PageSize> AddSpecImpl<u64> for Page<S> {
    open spec fn obeys_add_spec() -> bool {
        true
    }

    open spec fn add_req(self, rhs: u64) -> bool {
        self.address.0 + rhs * S::size_spec() <= u64::MAX
    }

    open spec fn add_spec(self, rhs: u64) -> Self {
        Page {
            address: VirtualAddress(frame_base::<S>((self.address.0 + rhs * S::size_spec()) as u64)),
            size: PhantomData,
        }
    }
}

impl<S: PageSize> Add<usize> for Page<S> {
    type Output = Self;

    fn add(self, rhs: usize) -> (r: Self) {
        proof {
            S::lemma_size();
        }
        Page::containing_address(self.address + rhs * S::size())
    }
}

impl<S: PageSize> AddSpecImpl<usize> for Page<S> {
    open spec fn obeys_add_spec() -> bool {
        true
    }

    open spec fn add_req(self, rhs: usize) -> bool {
        &&& rhs * S::size_spec() <= usize::MAX
        &&& self.address.0 + rhs * S::size_spec() <= u64::MAX
    }

    open spec fn add_spec(self, rhs: usize) -> Self {
        Page {
            address: VirtualAddress(frame_base::<S>((self.address.0 + rhs * S::size_spec()) as u64)),
            size: PhantomData,
        }
    }
}

impl<S: PageSize> Sub<u64> for Page<S> {
    type Output = Self;

    fn sub(self, rhs: u64) -> (r: Self) {
        proof {
            S::lemma_size();
        }
        Page::containing_address(self.address - rhs * S::size() as u64)
    }
}

impl<S: PageSize> SubSpecImpl<u64> for Page<S> {
    open spec fn obeys_sub_spec() -> bool {
        true
    }

    open spec fn sub_req(self, rhs: u64) -> bool {
        rhs * S::size_spec() <= self.address.0
    }

    open spec fn sub_spec(self, rhs: u64) -> Self {
        Page {
            address: VirtualAddress(frame_base::<S>((self.address.0 - rhs * S::size_spec()) as u64)),
            size: PhantomData,
        }
    }
}

impl<S: PageSize> Sub<usize> for Page<S> {
    type Output = Self;

    fn sub(self, rhs: usize) -> (r: Self) {
        proof {
            S::lemma_size();
        }
        Page::containing_address(self.address - rhs * S::size())
    }
}

impl<S: PageSize> SubSpecImpl<usize> for Page<S> {
    open spec fn obeys_sub_spec() -> bool {
        true
    }

    open spec fn sub_req(self, rhs: usize) -> bool {
        &&& rhs * S::size_spec() <= usize::MAX
        &&& rhs * S::size_spec() <= self.address.0
    }

    open spec fn sub_spec(self, rhs: usize) -> Self {
        Page {
            address: VirtualAddress(frame_base::<S>((self.address.0 - rhs * S::size_spec()) as u64)),
            size: PhantomData,
        }
    }
}

impl<S: PageSize> Sub<Page<S>> for Page<S> {
    type Output = u64;

    fn sub(self, rhs: Page<S>) -> (r: u64) {
        proof {
            S::lemma_size();
        }
        (self.address - rhs.address) / S::size() as u64
    }
}

impl<S: PageSize> SubSpecImpl<Page<S>> for Page<S> {
    open spec fn obeys_sub_spec() -> bool {
        true
    }

    open spec fn sub_req(self, rhs: Page<S>) -> bool {
        rhs.address.0 <= self.address.0
    }

    open spec fn sub_spec(self, rhs: Page<S>) -> u64 {
        ((self.address.0 - rhs.address.0) / (S::size_spec() as int)) as u64
    }
}

/// The pages from `start_page` to `end_page`, both included.
pub struct PageRangeInclusive<S: PageSize> {
    pub start_page: Page<S>,
    pub end_page: Page<S>,
}

impl<S: PageSize> Clone for PageRangeInclusive<S> {
    fn clone(&self) -> (r: Self)
        ensures
            r == *self,
    {
        *self
    }
}

impl<S: PageSize> Copy for PageRangeInclusive<S> {

}

impl<S: PageSize> PageRangeInclusive<S> {
    /// The spec-level start of the range.
    pub open spec fn start_spec(&self) -> int {
        self.start_page.address.0 as int
    }

    /// The spec-level (exclusive) end of the range.
    pub open spec fn end_spec(&self) -> int {
        self.end_page.address.0 + S::size_spec()
    }

    /// The end of the range fits in an address.
    pub open spec fn end_fits(&self) -> bool {
        self.end_page.address.0 + S::size_spec() <= u64::MAX
    }

    pub fn new(start_page: Page<S>, end_page: Page<S>) -> (r: Self)
        ensures
            r.start_page == start_page,
            r.end_page == end_page,
    {
        Self { start_page, end_page }
    }

    pub fn empty() -> (r: Self)
        ensures
            r.start_page.address.0 == 0,
            r.end_page.address.0 == 0,
    {
        Self {
            start_page: Page { address: VirtualAddress::new(0), size: PhantomData },
            end_page: Page { address: VirtualAddress::new(0), size: PhantomData },
        }
    }

    pub fn start_page(&self) -> (r: Page<S>)
        ensures
            r == self.start_page,
    {
        self.start_page
    }

    pub fn end_page(&self) -> (r: Page<S>)
        ensures
            r == self.end_page,
    {
        self.end_page
    }

    pub fn start_address(&self) -> (r: VirtualAddress)
        ensures
            r == self.start_page.address,
    {
        self.start_page.address()
    }

    pub fn end_address(&self) -> (r: VirtualAddress)
        requires
            self.end_fits(),
        ensures
            r.0 == self.end_spec(),
    {
        self.end_page.end_address()
    }

    /// Whether `range` lies within this range.
    pub fn contains(&self, range: &PageRangeInclusive<S>) -> (r: bool)
        requires
            self.end_fits(),
            range.end_fits(),
        ensures
            r == (self.start_spec() <= range.start_spec() && self.end_spec() >= range.end_spec()),
    {
        self.start_address().0 <= range.start_address().0 && self.end_address().0
            >= range.end_address().0
    }

    /// Whether the two ranges share an address (touching ends count).
    pub fn overlaps(&self, range: &PageRangeInclusive<S>) -> (r: bool)
        requires
            self.end_fits(),
            range.end_fits(),
        ensures
            r == !(self.end_spec() < range.start_spec() || self.start_spec() > range.end_spec()),
    {
        !(self.end_address().0 < range.start_address().0 || self.start_address().0
            > range.end_address().0)
    }

    /// The size of the range in bytes.
    pub fn size(&self) -> (r: usize)
        requires
            self.end_fits(),
            self.start_spec() <= self.end_spec(),
            self.end_spec() - self.start_spec() <= usize::MAX,
        ensures
            r == self.end_spec() - self.start_spec(),
    {
        let d = self.end_page.end_address() - self.start_page.start_address();
        d as usize
    }

    /// The number of pages in the range.
    pub fn len(&self) -> (r: usize)
        requires
            self.end_fits(),
            self.start_spec() <= self.end_spec(),
            self.end_spec() - self.start_spec() <= usize::MAX,
        ensures
            r == (self.end_spec() - self.start_spec()) / (S::size_spec() as int),
    {
        proof {
            S::lemma_size();
        }
        self.size() / S::size()
    }

    /// The half-open range of addresses covered by the pages.
    pub fn into_range(self) -> (r: Range<u64>)
        requires
            self.end_fits(),
        ensures
            r.start == self.start_spec(),
            r.end == self.end_spec(),
    {
        Range { start: self.start_page.start_address().as_u64(), end: self.end_page.end_address().as_u64() }
    }

    /// Yields the first page of the range and moves the start one page up;
    /// `None` once the start has passed the end.
    pub fn next(&mut self) -> (r: Option<Page<S>>)
        requires
            old(self).start_page.address.0 <= old(self).end_page.address.0 ==> old(
                self,
            ).start_page.address.0 + S::size_spec() <= u64::MAX,
        ensures
            old(self).start_page.address.0 <= old(self).end_page.address.0 ==> {
                &&& r == Some(old(self).start_page)
                &&& final(self).start_page.address.0 == old(self).start_page.address.0
                    + S::size_spec()
                &&& final(self).end_page == old(self).end_page
            },
            old(self).start_page.address.0 > old(self).end_page.address.0 ==> r is None
                && *final(self) == *old(self),
    {
        if self.start_page.address.0 <= self.end_page.address.0 {
            let page = self.start_page;
            self.start_page.add_assign(1);
            Some(page)
        } else {
            None
        }
    }
}

} // verus!
