use vstd::prelude::*;

pub mod bits;
pub mod pow2;
pub mod memory;
pub mod paging;
pub mod ringbuffer;
pub mod range_allocator;
pub mod hashmap;
pub mod elf;
pub mod gdt;
pub mod idt;
pub mod allocator;
pub mod buddy_frame_allocator;
pub mod port;
pub mod uart;
pub mod pic8259;
pub mod pit8254;
pub mod time;
pub mod register;
pub mod error;
pub mod interrupts;
pub mod qemu;
pub mod mapped_page_table;
pub mod offset_page_table;
pub mod region;
pub mod virtual_memory_object;
pub mod linked_list_frame_allocator;
pub mod bump_frame_allocator;
pub mod address_space;
pub mod manager;
pub mod multitasking;
pub mod semaphore;
pub mod rwlock;
pub mod mpsc_queue;
pub mod intrusive_linked_list;

verus! {

/// Data the kernel sets once at start and reads everywhere.
pub struct GlobalData {
    physical_memory_offset: usize,
}

impl GlobalData {
    pub closed spec fn physical_memory_offset_spec(&self) -> usize {
        self.physical_memory_offset
    }

    pub fn new() -> (r: Self)
        ensures
            r.physical_memory_offset_spec() == 0,
    {
        Self { physical_memory_offset: 0 }
    }

    /// Records where physical memory is mapped.
    pub fn init(&mut self, physical_memory_offset: usize)
        ensures
            final(self).physical_memory_offset_spec() == physical_memory_offset,
    {
        self.physical_memory_offset = physical_memory_offset;
    }

    pub fn physical_memory_offset(&self) -> (r: usize)
        ensures
            r == self.physical_memory_offset_spec(),
    {
        self.physical_memory_offset
    }
}

/// Adds two numbers.
pub fn add(left: u64, right: u64) -> (sum: u64)
    requires
        left + right <= u64::MAX,
    ensures
        sum == left + right,
{
    left + right
}

} // verus!
