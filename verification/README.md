# miniature_os

The core of a small x86_64 hobby kernel, written in Verus: its data
structures, allocators, page tables, scheduler and drivers, each function
with a contract that Verus proves.

Layout:

- `src/` — the verified library.
  - Memory: `memory` (addresses, pages, frames, regions), `paging` and
    `mapped_page_table`/`offset_page_table` (four-level page tables, modelled
    as the tables' contents), `address_space`, the frame allocators
    (`bump_frame_allocator`, `linked_list_frame_allocator`,
    `buddy_frame_allocator`), the heap (`allocator`, with the buddy allocator
    and the stack allocator), `range_allocator`, `region` (the regions of an
    address space), `virtual_memory_object` and `manager` (the memory
    manager).
  - Multitasking: `multitasking` (processes, threads, the scheduler and the
    housekeeping threads), `semaphore`, `rwlock`, `mpsc_queue`.
  - Hardware: `gdt`, `idt`, `register`, `port`, `uart`, `pic8259`,
    `pit8254`, `time`, `interrupts`, `qemu`. Drivers return the port writes
    they mean; performing them is left to the caller.
  - Utilities: `bits` (bit fields, through the `bit_field` crate), `pow2`,
    `ringbuffer`, `hashmap`, `elf` (parsing ELF files).
- `tests/` — tests of the library.
- `app/` — what runs on the machine: port and register access, calibrating
  the time-stamp counter, switching threads, and the kernel's global state.
