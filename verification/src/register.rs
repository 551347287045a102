//! Control, flag and segment registers: the values they hold and the values
//! written to them. Reading and writing the registers themselves is left to
//! the caller.
use vstd::prelude::*;
use crate::gdt::SegmentSelector;
use crate::memory::{PhysicalAddress, PhysicalFrame, Size4KiB, VirtualAddress, frame_base};

verus! {

/// Enable interrupts.
pub const RFLAGS_INTERRUPT_FLAG: u64 = 1 << 9;

/// The lowest bit of the I/O privilege level.
pub const RFLAGS_IOPL_LOW: u64 = 1 << 12;

/// Order in which strings are processed.
pub const RFLAGS_DIRECTION_FLAG: u64 = 1 << 10;

/// Single-step mode for debugging.
pub const RFLAGS_TRAP_FLAG: u64 = 1 << 8;

/// If this flag can be changed, the CPU supports CPUID.
pub const RFLAGS_ID: u64 = 1 << 21;

/// The RFLAGS register; every bit pattern is a valid value.
#[derive(Clone, Copy, Debug, PartialEq, Eq, Structural)]
pub struct RFlags {
    pub bits: u64,
}

impl RFlags {
    /// Every defined flag.
    pub fn all() -> (r: Self)
        ensures
            r.bits == 0x3f7fd5,
    {
        Self { bits: 0x3f7fd5 }
    }

    /// No flag.
    pub fn empty() -> (r: Self)
        ensures
            r.bits == 0,
    {
        Self { bits: 0 }
    }

    /// The defined flags among `bits`; the others are dropped.
    pub fn from_bits_truncate(bits: u64) -> (r: Self)
        ensures
            r.bits == bits & 0x3f7fd5,
    {
        Self { bits: bits & 0x3f7fd5 }
    }

    pub fn bits(&self) -> (r: u64)
        ensures
            r == self.bits,
    {
        self.bits
    }

    /// Whether every flag of `other` is set.
    pub fn contains(&self, other: Self) -> (r: bool)
        ensures
            r == (self.bits & other.bits == other.bits),
    {
        self.bits & other.bits == other.bits
    }

    /// The flags of both.
    pub fn union(&self, other: Self) -> (r: Self)
        ensures
            r.bits == self.bits | other.bits,
    {
        Self { bits: self.bits | other.bits }
    }
}
/// Enables `syscall` and `sysret`.
pub const EFER_SYSTEM_CALL_EXTENSIONS: u64 = 1;

/// Activates long mode; needs paging.
pub const EFER_LONG_MODE_ENABLE: u64 = 1 << 8;

/// Long mode is active.
pub const EFER_LONG_MODE_ACTIVE: u64 = 1 << 10;

/// Enables no-execute page protection.
pub const EFER_NO_EXECUTE_ENABLE: u64 = 1 << 11;

/// Flags of the extended feature enable register.
#[derive(Clone, Copy, Debug, PartialEq, Eq, Structural)]
pub struct EferFlags {
    pub bits: u64,
}

impl EferFlags {
    /// Every defined flag.
    pub fn all() -> (r: Self)
        ensures
            r.bits == 0xfd01,
    {
        Self { bits: 0xfd01 }
    }

    /// No flag.
    pub fn empty() -> (r: Self)
        ensures
            r.bits == 0,
    {
        Self { bits: 0 }
    }

    /// The defined flags among `bits`; the others are dropped.
    pub fn from_bits_truncate(bits: u64) -> (r: Self)
        ensures
            r.bits == bits & 0xfd01,
    {
        Self { bits: bits & 0xfd01 }
    }

    pub fn bits(&self) -> (r: u64)
        ensures
            r == self.bits,
    {
        self.bits
    }

    /// Whether every flag of `other` is set.
    pub fn contains(&self, other: Self) -> (r: bool)
        ensures
            r == (self.bits & other.bits == other.bits),
    {
        self.bits & other.bits == other.bits
    }

    /// The flags of both.
    pub fn union(&self, other: Self) -> (r: Self)
        ensures
            r.bits == self.bits | other.bits,
    {
        Self { bits: self.bits | other.bits }
    }
}
/// Enables protected mode.
pub const CR0_PROTECTED_MODE_ENABLE: u64 = 1;

/// Supervisor writes to read-only pages are refused.
pub const CR0_WRITE_PROTECT: u64 = 1 << 16;

/// Enables paging.
pub const CR0_PAGING: u64 = 1 << 31;

/// Configuration flags of the CR0 register.
#[derive(Clone, Copy, Debug, PartialEq, Eq, Structural)]
pub struct Cr0Flags {
    pub bits: u64,
}

impl Cr0Flags {
    /// Every defined flag.
    pub fn all() -> (r: Self)
        ensures
            r.bits == 0xe005003f,
    {
        Self { bits: 0xe005003f }
    }

    /// No flag.
    pub fn empty() -> (r: Self)
        ensures
            r.bits == 0,
    {
        Self { bits: 0 }
    }

    /// The defined flags among `bits`; the others are dropped.
    pub fn from_bits_truncate(bits: u64) -> (r: Self)
        ensures
            r.bits == bits & 0xe005003f,
    {
        Self { bits: bits & 0xe005003f }
    }

    pub fn bits(&self) -> (r: u64)
        ensures
            r == self.bits,
    {
        self.bits
    }

    /// Whether every flag of `other` is set.
    pub fn contains(&self, other: Self) -> (r: bool)
        ensures
            r == (self.bits & other.bits == other.bits),
    {
        self.bits & other.bits == other.bits
    }

    /// The flags of both.
    pub fn union(&self, other: Self) -> (r: Self)
        ensures
            r.bits == self.bits | other.bits,
    {
        Self { bits: self.bits | other.bits }
    }
}
/// Write-through caching for the table.
pub const CR3_PAGE_LEVEL_WRITETHROUGH: u64 = 1 << 3;

/// No caching for the table.
pub const CR3_PAGE_LEVEL_CACHE_DISABLE: u64 = 1 << 4;

/// Cache settings of the top-level page table, held in CR3.
#[derive(Clone, Copy, Debug, PartialEq, Eq, Structural)]
pub struct Cr3Flags {
    pub bits: u64,
}

impl Cr3Flags {
    /// Every defined flag.
    pub fn all() -> (r: Self)
        ensures
            r.bits == 0x18,
    {
        Self { bits: 0x18 }
    }

    /// No flag.
    pub fn empty() -> (r: Self)
        ensures
            r.bits == 0,
    {
        Self { bits: 0 }
    }

    /// The defined flags among `bits`; the others are dropped.
    pub fn from_bits_truncate(bits: u64) -> (r: Self)
        ensures
            r.bits == bits & 0x18,
    {
        Self { bits: bits & 0x18 }
    }

    pub fn bits(&self) -> (r: u64)
        ensures
            r == self.bits,
    {
        self.bits
    }

    /// Whether every flag of `other` is set.
    pub fn contains(&self, other: Self) -> (r: bool)
        ensures
            r == (self.bits & other.bits == other.bits),
    {
        self.bits & other.bits == other.bits
    }

    /// The flags of both.
    pub fn union(&self, other: Self) -> (r: Self)
        ensures
            r.bits == self.bits | other.bits,
    {
        Self { bits: self.bits | other.bits }
    }
}

/// The RFLAGS register.
pub struct RFlagsReg;

impl RFlagsReg {
    /// The flags in a value read from RFLAGS.
    pub fn read(raw: u64) -> (r: RFlags)
        ensures
            r.bits == raw & 0x3f7fd5,
    {
        RFlags::from_bits_truncate(raw)
    }

    /// The value to write to RFLAGS to set `flags`: the reserved bits of the
    /// value read before (`old_value`), and the flags.
    pub fn write(old_value: u64, flags: RFlags) -> (r: u64)
        ensures
            r == (old_value & !0x3f7fd5u64) | flags.bits,
    {
        let reserved = old_value & !(RFlags::all().bits());
        reserved | flags.bits()
    }
}

/// Number of the EFER model-specific register.
pub const EFER_MSR: u32 = 0xC0000080;

/// A model-specific register value from its two 32-bit halves, as `rdmsr`
/// hands them out.
pub fn msr_value(high: u32, low: u32) -> (r: u64)
    ensures
        r == ((high as u64) << 32u64) | (low as u64),
{
    ((high as u64) << 32u64) | (low as u64)
}

/// The two 32-bit halves, high then low, that `wrmsr` takes for `value`.
pub fn msr_halves(value: u64) -> (r: (u32, u32))
    ensures
        r.0 == (value >> 32u64) as u32,
        r.1 == value as u32,
        ((r.0 as u64) << 32u64) | (r.1 as u64) == value,
{
    let high = (value >> 32u64) as u32;
    let low = value as u32;
    assert(((((value >> 32u64) as u32) as u64) << 32u64) | ((value as u32) as u64) == value) by (bit_vector);
    (high, low)
}

/// The extended feature enable register.
pub struct Efer;

impl Efer {
    /// The flags in a value read from EFER.
    pub fn read(raw: u64) -> (r: EferFlags)
        ensures
            r.bits == raw & 0xfd01,
    {
        EferFlags::from_bits_truncate(raw)
    }

    /// The value to write to EFER for `flags`.
    pub fn write(flags: EferFlags) -> (r: u64)
        ensures
            r == flags.bits,
    {
        flags.bits()
    }
}

/// Control register 0.
pub struct Cr0;

impl Cr0 {
    /// The flags in a value read from CR0.
    pub fn read(raw: u64) -> (r: Cr0Flags)
        ensures
            r.bits == raw & 0xe005003f,
    {
        Cr0Flags::from_bits_truncate(raw)
    }

    /// The value to write to CR0 for `flags`.
    pub fn write(flags: Cr0Flags) -> (r: u64)
        ensures
            r == flags.bits,
    {
        flags.bits()
    }
}

/// Control register 2: the address of the last page fault.
pub struct Cr2;

impl Cr2 {
    /// The faulting address in a value read from CR2.
    pub fn read(raw: u64) -> (r: VirtualAddress)
        ensures
            r.0 == raw,
    {
        VirtualAddress::new(raw)
    }
}

/// Control register 3: the frame of the top-level page table and its cache flags.
pub struct Cr3;

impl Cr3 {
    /// The top-level table frame (bits 12 to 51) and the flags (low 12 bits)
    /// in a value read from CR3.
    pub fn read(raw: u64) -> (r: (PhysicalFrame<Size4KiB>, Cr3Flags))
        ensures
            r.0.address.0 == frame_base::<Size4KiB>(raw & 0x000f_ffff_ffff_f000),
            r.1.bits == (raw & 0xfff) & 0x18,
    {
        let frame = PhysicalFrame::containing_address(PhysicalAddress::new(raw & 0x000f_ffff_ffff_f000));
        let flags = Cr3Flags::from_bits_truncate(raw & 0xfff);
        (frame, flags)
    }

    /// The value to write to CR3 for table frame `frame` and `flags`.
    pub fn write(frame: PhysicalFrame<Size4KiB>, flags: Cr3Flags) -> (r: u64)
        ensures
            r == frame.address.0 | flags.bits,
    {
        frame.start() | flags.bits()
    }
}

/// The code segment register.
pub struct CS;

impl CS {
    /// The value to load into CS for `selector`.
    pub fn write(selector: SegmentSelector) -> (r: u16)
        ensures
            r == selector.0,
    {
        selector.raw()
    }
}

/// The stack segment register.
pub struct SS;

impl SS {
    /// The value to load into SS for `selector`.
    pub fn write(selector: SegmentSelector) -> (r: u16)
        ensures
            r == selector.0,
    {
        selector.raw()
    }
}

/// The data segment register.
pub struct DS;

impl DS {
    /// The value to load into DS for `selector`.
    pub fn write(selector: SegmentSelector) -> (r: u16)
        ensures
            r == selector.0,
    {
        selector.raw()
    }
}

/// The ES segment register.
pub struct ES;

impl ES {
    /// The value to load into ES for `selector`.
    pub fn write(selector: SegmentSelector) -> (r: u16)
        ensures
            r == selector.0,
    {
        selector.raw()
    }
}

/// The FS segment register; only its base is used in long mode.
pub struct FS;

/// The GS segment register; only its base is used in long mode.
pub struct GS;

} // verus!
