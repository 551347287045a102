//! The interrupt descriptor table, the task state segment and the page fault
//! error code.
use vstd::prelude::*;
use crate::bits::{low_mask_u16, u16_set_bit, u16_set_bits, with_field_u16};
use crate::gdt::{privilege_number, PrivilegeLevel, SegmentSelector};
use crate::memory::VirtualAddress;

verus! {

/// The options word of an interrupt descriptor.
#[derive(Debug, Clone, Copy, PartialEq, Eq, Structural)]
pub struct InterruptDescriptorOptions(pub u16);

proof fn lemma_masks_u16()
    ensures
        low_mask_u16(4) == 0xfu16,
        low_mask_u16(2) == 0x3u16,
        low_mask_u16(3) == 0x7u16,
        1u16 << 15u16 == 0x8000u16,
        1u16 << 8u16 == 0x100u16,
        (0u16 << 3u16) | 0u16 == 0u16,
{
    assert(((1u16 << 4u16) - 1) as u16 == 0xfu16 && ((1u16 << 2u16) - 1) as u16 == 0x3u16 && ((1u16 << 3u16) - 1)
        as u16 == 0x7u16 && 1u16 << 15u16 == 0x8000u16 && 1u16 << 8u16 == 0x100u16 && (0u16 << 3u16) | 0u16 == 0u16)
        by (bit_vector);
}

impl Default for InterruptDescriptorOptions {
    /// An interrupt gate (type 0xe in bits 8..12), not present.
    fn default() -> (r: Self)
        ensures
            r.0 == with_field_u16(0, 8, 12, 0xe),
    {
        proof {
            lemma_masks_u16();
        }
        let options = u16_set_bits(0, 8, 12, 0xe);
        InterruptDescriptorOptions(options)
    }
}

impl InterruptDescriptorOptions {
    /// Sets or clears the present bit (15).
    pub fn set_present(&mut self, present: bool)
        ensures
            present ==> final(self).0 == old(self).0 | 0x8000,
            !present ==> final(self).0 == old(self).0 & !0x8000u16,
    {
        proof {
            lemma_masks_u16();
        }
        self.0 = u16_set_bit(self.0, 15, present);
    }

    /// Bit 8 clear makes an interrupt gate (interrupts disabled on entry), set a trap gate.
    pub fn disable_interrupts(&mut self, disable: bool)
        ensures
            !disable ==> final(self).0 == old(self).0 | 0x100,
            disable ==> final(self).0 == old(self).0 & !0x100u16,
    {
        proof {
            lemma_masks_u16();
        }
        self.0 = u16_set_bit(self.0, 8, !disable);
    }

    /// Sets the descriptor privilege level: bits 13 and 14.
    pub fn set_privilege_level(&mut self, level: PrivilegeLevel)
        ensures
            final(self).0 == with_field_u16(old(self).0, 13, 15, privilege_number(level) as u16),
    {
        proof {
            lemma_masks_u16();
        }
        self.0 = u16_set_bits(self.0, 13, 15, level.as_u8() as u16);
    }

    /// Sets the interrupt stack table index (bits 0..3); the index is at most 7.
    pub fn set_interrupt_stack_index(&mut self, index: u16)
        requires
            index <= 7,
        ensures
            final(self).0 == with_field_u16(old(self).0, 0, 3, index),
    {
        proof {
            lemma_masks_u16();
        }
        self.0 = u16_set_bits(self.0, 0, 3, index);
    }
}

/// One entry of the interrupt descriptor table.
#[derive(Debug, Clone, Copy)]
pub struct InterruptDescriptor {
    pub pointer_low: u16,
    pub segment_selector: SegmentSelector,
    pub options: InterruptDescriptorOptions,
    pub pointer_middle: u16,
    pub pointer_high: u32,
    pub reserved: u32,
}

/// Whether `d` is an entry with no handler: not present, and zero in every
/// field but the options.
pub open spec fn is_missing(d: InterruptDescriptor) -> bool {
    &&& d.pointer_low == 0
    &&& d.pointer_middle == 0
    &&& d.pointer_high == 0
    &&& d.reserved == 0
    &&& d.segment_selector.0 == 0
    &&& d.options.0 == with_field_u16(0, 8, 12, 0xe)
}

impl InterruptDescriptor {
    /// An entry with no handler, not present.
    pub fn missing() -> (r: Self)
        ensures
            is_missing(r),
            r.pointer_low == 0 && r.pointer_middle == 0 && r.pointer_high == 0 && r.reserved == 0,
            r.segment_selector.0 == 0,
            r.options.0 == with_field_u16(0, 8, 12, 0xe),
    {
        let sel = SegmentSelector::new(0, PrivilegeLevel::Ring0);
        proof {
            lemma_masks_u16();
        }
        Self {
            pointer_low: 0,
            segment_selector: sel,
            options: InterruptDescriptorOptions::default(),
            pointer_middle: 0,
            pointer_high: 0,
            reserved: 0,
        }
    }

    /// Points the entry at the handler at `handler_address` in code segment
    /// `code_segment`, and marks it present.
    pub fn set_handler_function(&mut self, handler_address: u64, code_segment: SegmentSelector)
        ensures
            final(self).pointer_low == handler_address as u16,
            final(self).pointer_middle == (handler_address >> 16u64) as u16,
            final(self).pointer_high == (handler_address >> 32u64) as u32,
            final(self).segment_selector == code_segment,
            final(self).options.0 == old(self).options.0 | 0x8000,
            final(self).reserved == old(self).reserved,
    {
        self.pointer_low = handler_address as u16;
        self.pointer_middle = (handler_address >> 16) as u16;
        self.pointer_high = (handler_address >> 32) as u32;
        self.segment_selector = code_segment;
        self.options.set_present(true);
    }
}

/// The task state segment of x86_64.
pub struct TaskStateSegment {
    pub reserved_1: u32,
    pub privilege_stack_table: [VirtualAddress; 3],
    pub reserved_2: u64,
    /// Interrupt stack table (IST)
    pub interrupt_stack_table: [VirtualAddress; 7],
    pub reserved_3: u64,
    pub reserved_4: u16,
    /// Offset of the I/O permission bit map from the base of the segment.
    pub iomap_base: u16,
}

/// The size in bytes of a task state segment.
pub const TASK_STATE_SEGMENT_SIZE: u16 = 104;

/// The index into the interrupt stack table for double faults.
pub const DOUBLE_FAULT_IST_IDX: usize = 0;

impl TaskStateSegment {
    /// A segment with all stacks null and no I/O permission bit map.
    pub fn new() -> (r: Self)
        ensures
            forall|i: int| 0 <= i < 3 ==> (#[trigger] r.privilege_stack_table@[i]).0 == 0,
            forall|i: int| 0 <= i < 7 ==> (#[trigger] r.interrupt_stack_table@[i]).0 == 0,
            r.iomap_base == TASK_STATE_SEGMENT_SIZE,
    {
        TaskStateSegment {
            privilege_stack_table: [VirtualAddress(0);3],
            interrupt_stack_table: [VirtualAddress(0);7],
            iomap_base: TASK_STATE_SEGMENT_SIZE,
            reserved_1: 0,
            reserved_2: 0,
            reserved_3: 0,
            reserved_4: 0,
        }
    }
}

/// The error code the CPU pushes on a page fault.
#[derive(Debug, Clone, Copy, PartialEq, Eq, Structural)]
pub struct PageFaultErrorCode {
    pub bits: u64,
}

impl PageFaultErrorCode {
    pub fn from_bits_truncate(bits: u64) -> (r: Self)
        ensures
            r.bits == bits & 0x1f,
    {
        Self { bits: bits & 0x1f }
    }

    pub fn bits(&self) -> (r: u64)
        ensures
            r == self.bits,
    {
        self.bits
    }

    /// The fault was caused by a page that is not present (bit 0 clear).
    pub fn is_non_present_fault(&self) -> (r: bool)
        ensures
            r == (self.bits & 1 == 0),
    {
        self.bits() & 1 == 0
    }

    /// The fault was caused by a write (bit 1 set).
    pub fn is_write_fault(&self) -> (r: bool)
        ensures
            r == (self.bits & 2 != 0),
    {
        self.bits() & 2 != 0
    }
}

/// What the CPU pushes on the stack before it enters an exception handler.
pub struct ExceptionStackFrame {
    pub instruction_pointer: u64,
    pub code_segment: u64,
    pub cpu_flags: u64,
    pub stack_pointer: u64,
    pub stack_segment: u64,
}

/// The interrupt descriptor table: the 32 exceptions, then the interrupts.
pub struct InterruptDescriptorTable {
    pub divide_error: InterruptDescriptor,
    pub debug: InterruptDescriptor,
    pub non_maskable_interrupt: InterruptDescriptor,
    pub breakpoint: InterruptDescriptor,
    pub overflow: InterruptDescriptor,
    pub bound_range_exceeded: InterruptDescriptor,
    pub invalid_opcode: InterruptDescriptor,
    pub device_not_available: InterruptDescriptor,
    pub double_fault: InterruptDescriptor,
    pub coprocessor_segment_overrun: InterruptDescriptor,
    pub invalid_tss: InterruptDescriptor,
    pub segment_not_present: InterruptDescriptor,
    pub stack_segment_fault: InterruptDescriptor,
    pub general_protection_fault: InterruptDescriptor,
    pub page_fault: InterruptDescriptor,
    pub reserved_1: InterruptDescriptor,
    pub x87_floating_point: InterruptDescriptor,
    pub alignment_check: InterruptDescriptor,
    pub machine_check: InterruptDescriptor,
    pub simd_floating_point: InterruptDescriptor,
    pub virtualization: InterruptDescriptor,
    pub cp_protection_exception: InterruptDescriptor,
    pub reserved_2: [InterruptDescriptor; 6],
    pub hv_injection_exception: InterruptDescriptor,
    pub vmm_communication_exception: InterruptDescriptor,
    pub security_exception: InterruptDescriptor,
    pub reserved_3: InterruptDescriptor,
    pub interrupts: Vec<InterruptDescriptor>,
}

impl Default for InterruptDescriptorTable {
    /// A table of missing entries: 32 exceptions and 224 interrupts.
    fn default() -> (r: Self)
        ensures
            r.interrupts@.len() == 224,
            forall|i: int| 0 <= i < 224 ==> is_missing(#[trigger] r.interrupts@[i]),
            forall|i: int| 0 <= i < 6 ==> is_missing(#[trigger] r.reserved_2@[i]),
            is_missing(r.divide_error),
            is_missing(r.debug),
            is_missing(r.non_maskable_interrupt),
            is_missing(r.breakpoint),
            is_missing(r.overflow),
            is_missing(r.bound_range_exceeded),
            is_missing(r.invalid_opcode),
            is_missing(r.device_not_available),
            is_missing(r.double_fault),
            is_missing(r.coprocessor_segment_overrun),
            is_missing(r.invalid_tss),
            is_missing(r.segment_not_present),
            is_missing(r.stack_segment_fault),
            is_missing(r.general_protection_fault),
            is_missing(r.page_fault),
            is_missing(r.reserved_1),
            is_missing(r.x87_floating_point),
            is_missing(r.alignment_check),
            is_missing(r.machine_check),
            is_missing(r.simd_floating_point),
            is_missing(r.virtualization),
            is_missing(r.cp_protection_exception),
            is_missing(r.hv_injection_exception),
            is_missing(r.vmm_communication_exception),
            is_missing(r.security_exception),
            is_missing(r.reserved_3),
    {
        let m = InterruptDescriptor::missing();
        let mut interrupts: Vec<InterruptDescriptor> = Vec::new();
        let mut i: usize = 0;
        while i < 224
            invariant
                i <= 224,
                interrupts@.len() == i,
                is_missing(m),
                forall|j: int| 0 <= j < i ==> is_missing(#[trigger] interrupts@[j]),
            decreases 224 - i,
        {
            interrupts.push(m);
            i = i + 1;
        }
        let reserved_2 = [m;6];
        assert(reserved_2 == vstd::array::spec_array_fill_for_copy_type::<InterruptDescriptor, 6>(m));
        Self {
            divide_error: m,
            debug: m,
            non_maskable_interrupt: m,
            breakpoint: m,
            overflow: m,
            bound_range_exceeded: m,
            invalid_opcode: m,
            device_not_available: m,
            double_fault: m,
            coprocessor_segment_overrun: m,
            invalid_tss: m,
            segment_not_present: m,
            stack_segment_fault: m,
            general_protection_fault: m,
            page_fault: m,
            reserved_1: m,
            x87_floating_point: m,
            alignment_check: m,
            machine_check: m,
            simd_floating_point: m,
            virtualization: m,
            cp_protection_exception: m,
            reserved_2,
            hv_injection_exception: m,
            vmm_communication_exception: m,
            security_exception: m,
            reserved_3: m,
            interrupts,
        }
    }
}

/// The descriptor loaded into the interrupt descriptor table register.
pub struct InterruptTableDescriptor {
    /// The size of the table minus one, in bytes.
    pub size: u16,
    /// The address of the table.
    pub base: u64,
}

impl InterruptTableDescriptor {
    /// The descriptor of a table of 256 entries of 16 bytes at `base`.
    pub fn new(base: VirtualAddress) -> (r: Self)
        ensures
            r.size == 4095,
            r.base == base.0,
    {
        Self { size: (256 * 0x10 - 1) as u16, base: base.0 }
    }
}

} // verus!
