//! Memory objects that back regions of the address space.
use vstd::prelude::*;
use crate::error::MemoryError;
use crate::memory::{PageAlignedSize, PhysicalFrame, Size4KiB};

verus! {

/// When a memory object gets its frames.
pub enum AllocationStrategy {
    /// The frames are allocated when the object is made.
    AllocateNow,
}

/// Something that backs a region of the address space.
pub trait VirtualMemoryObject {
    /// Whether the object's size fits in a `usize` once rounded to pages.
    spec fn size_fits(&self) -> bool;

    /// The size of the object, in whole pages.
    fn size(&self) -> PageAlignedSize
        requires
            self.size_fits(),
    ;
}

/// A memory object backed by physical frames.
pub struct MemoryBackedVirtualMemoryObject {
    frames: Vec<PhysicalFrame<Size4KiB>>,
}

impl MemoryBackedVirtualMemoryObject {
    pub closed spec fn frames_spec(&self) -> Seq<PhysicalFrame<Size4KiB>> {
        self.frames@
    }

    pub fn new(frames: Vec<PhysicalFrame<Size4KiB>>) -> (r: Self)
        ensures
            r.frames_spec() == frames@,
    {
        Self { frames }
    }

    /// An object backed by `frames`; this never fails.
    pub fn create_with_frames(frames: Vec<PhysicalFrame<Size4KiB>>, strategy: AllocationStrategy) -> (r: Result<
        MemoryBackedVirtualMemoryObject,
        MemoryError,
    >)
        ensures
            r matches Ok(o) && o.frames_spec() == frames@,
    {
        Ok(Self { frames })
    }

    pub fn frames(&self) -> (r: &Vec<PhysicalFrame<Size4KiB>>)
        ensures
            r@ == self.frames_spec(),
    {
        &self.frames
    }
}

impl Default for MemoryBackedVirtualMemoryObject {
    fn default() -> (r: Self)
        ensures
            r.frames_spec() == Seq::<PhysicalFrame<Size4KiB>>::empty(),
    {
        Self { frames: Vec::new() }
    }
}

impl VirtualMemoryObject for MemoryBackedVirtualMemoryObject {
    open spec fn size_fits(&self) -> bool {
        self.frames_spec().len() * 0x1000 + 0x1000 <= usize::MAX
    }

    /// One page per frame.
    fn size(&self) -> (r: PageAlignedSize)
        ensures
            r.0 == self.frames_spec().len() * 0x1000,
    {
        let n = self.frames.len();
        assert(n * 0x1000 <= usize::MAX) by (nonlinear_arith)
            requires
                n * 0x1000 + 0x1000 <= usize::MAX,
        ;
        let bytes = n * 0x1000;
        let r = PageAlignedSize::new(bytes);
        assert(bytes % 0x1000 == 0) by (nonlinear_arith)
            requires
                bytes == n * 0x1000,
        ;
        r
    }
}

} // verus!
