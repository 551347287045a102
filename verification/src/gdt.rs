//! Segment selectors, segment descriptors and the global descriptor table.
use vstd::prelude::*;
use crate::bits::{low_mask, u64_set_bits, with_field_u64};
use crate::memory::VirtualAddress;

verus! {

/// CPU privilege levels, or rings.
#[derive(Clone, Copy, Debug, PartialEq, Eq, Structural)]
pub enum PrivilegeLevel {
    /// Supervisor mode: least protection, most access to resources.
    Ring0,
    Ring1,
    Ring2,
    /// User mode: most protection, least access to resources.
    Ring3,
}

/// The number of a privilege level.
pub open spec fn privilege_number(p: PrivilegeLevel) -> u8 {
    match p {
        PrivilegeLevel::Ring0 => 0,
        PrivilegeLevel::Ring1 => 1,
        PrivilegeLevel::Ring2 => 2,
        PrivilegeLevel::Ring3 => 3,
    }
}

impl PrivilegeLevel {
    /// The level with number `v`, which must be at most 3.
    pub fn from_u8(v: u8) -> (r: Self)
        requires
            v <= 3,
        ensures
            privilege_number(r) == v,
    {
        match v {
            0 => PrivilegeLevel::Ring0,
            1 => PrivilegeLevel::Ring1,
            2 => PrivilegeLevel::Ring2,
            _ => PrivilegeLevel::Ring3,
        }
    }

    /// The number of the level.
    pub fn as_u8(self) -> (r: u8)
        ensures
            r == privilege_number(self),
    {
        match self {
            PrivilegeLevel::Ring0 => 0,
            PrivilegeLevel::Ring1 => 1,
            PrivilegeLevel::Ring2 => 2,
            PrivilegeLevel::Ring3 => 3,
        }
    }
}

/// An index into a descriptor table with a requested privilege level.
#[derive(Debug, Clone, Copy, PartialEq, Eq, Structural)]
pub struct SegmentSelector(pub u16);

impl SegmentSelector {
    /// The selector of entry `idx` with requested privilege level `rpl`.
    pub fn new(idx: u16, rpl: PrivilegeLevel) -> (r: Self)
        ensures
            r.0 == (idx << 3u16) | (privilege_number(rpl) as u16),
    {
        SegmentSelector(idx << 3 | rpl.as_u8() as u16)
    }

    pub fn raw(&self) -> (r: u16)
        ensures
            r == self.0,
    {
        self.0
    }

    pub fn from_raw(val: u16) -> (r: Self)
        ensures
            r.0 == val,
    {
        Self(val)
    }
}

/// The type of a system segment.
#[derive(Debug, Clone, Copy, PartialEq, Eq, Structural)]
pub enum SystemSegmentType {
    /// Local Descriptor Table (LDT)
    LDT,
    /// 64-bit Task State Segment (TSS) available
    TssAvailable,
    /// 64-bit Task State Segment (TSS) busy
    TssBusy,
}

impl SystemSegmentType {
    /// The type field value of the segment type.
    pub fn value(self) -> (r: u64)
        ensures
            self == SystemSegmentType::LDT ==> r == 0x2,
            self == SystemSegmentType::TssAvailable ==> r == 0x9,
            self == SystemSegmentType::TssBusy ==> r == 0xb,
    {
        match self {
            SystemSegmentType::LDT => 0x2,
            SystemSegmentType::TssAvailable => 0x9,
            SystemSegmentType::TssBusy => 0xb,
        }
    }
}

/// The access byte and flags of a segment descriptor.
#[derive(Debug, Clone, Copy, PartialEq, Eq, Structural)]
pub struct SegmentDescriptorFlags {
    pub bits: u64,
}

impl SegmentDescriptorFlags {
    /// Set by the CPU when the segment is accessed.
    pub fn accessed() -> (r: Self)
        ensures
            r.bits == 1u64 << 40u64,
    {
        Self { bits: 1u64 << 40u64 }
    }

    /// Readable code segment, or writable data segment.
    pub fn read_write() -> (r: Self)
        ensures
            r.bits == 1u64 << 41u64,
    {
        Self { bits: 1u64 << 41u64 }
    }

    pub fn conforming() -> (r: Self)
        ensures
            r.bits == 1u64 << 42u64,
    {
        Self { bits: 1u64 << 42u64 }
    }

    pub fn executable() -> (r: Self)
        ensures
            r.bits == 1u64 << 43u64,
    {
        Self { bits: 1u64 << 43u64 }
    }

    /// A code or data segment rather than a system segment.
    pub fn user_segment() -> (r: Self)
        ensures
            r.bits == 1u64 << 44u64,
    {
        Self { bits: 1u64 << 44u64 }
    }

    /// The entry refers to a valid segment.
    pub fn present() -> (r: Self)
        ensures
            r.bits == 1u64 << 47u64,
    {
        Self { bits: 1u64 << 47u64 }
    }

    /// A 64-bit code segment.
    pub fn long_mode() -> (r: Self)
        ensures
            r.bits == 1u64 << 53u64,
    {
        Self { bits: 1u64 << 53u64 }
    }

    /// A 32-bit protected mode segment.
    pub fn protected_mode() -> (r: Self)
        ensures
            r.bits == 1u64 << 54u64,
    {
        Self { bits: 1u64 << 54u64 }
    }

    /// The limit counts 4 KiB blocks rather than bytes.
    pub fn granularity() -> (r: Self)
        ensures
            r.bits == 1u64 << 55u64,
    {
        Self { bits: 1u64 << 55u64 }
    }

    pub fn bits(&self) -> (r: u64)
        ensures
            r == self.bits,
    {
        self.bits
    }

    pub fn union(self, other: Self) -> (r: Self)
        ensures
            r.bits == self.bits | other.bits,
    {
        Self { bits: self.bits | other.bits }
    }
}

/// A descriptor of the global descriptor table: a user segment takes one
/// entry, a system segment two.
#[derive(Debug, Clone, Copy, PartialEq, Eq, Structural)]
pub enum SegmentDescriptor {
    UserSegment(u64),
    SystemSegment(u64, u64),
}

/// The descriptor value of a user segment with `flags`, `limit` and `base`.
pub open spec fn user_descriptor(flags: u64, limit: u32, base: u32) -> u64 {
    let with_base = if base != 0 {
        with_field_u64(
            with_field_u64(flags, 16, 40, (base & 0xffffff) as u64),
            56,
            64,
            ((base >> 24u32) & 0xff) as u64,
        )
    } else {
        flags
    };
    with_field_u64(
        with_field_u64(with_base, 0, 16, (limit & 0xffff) as u64),
        48,
        52,
        ((limit >> 16u32) & 0xf) as u64,
    )
}

/// The two descriptor values of an available TSS at `address`.
pub open spec fn tss_descriptor(address: u64) -> (u64, u64) {
    let low = with_field_u64(
        with_field_u64(
            with_field_u64(
                with_field_u64(1u64 << 47u64, 16, 40, address & 0xff_ffff),
                56,
                64,
                (address >> 24u64) & 0xff,
            ),
            0,
            16,
            103,
        ),
        40,
        44,
        0x9,
    );
    let high = with_field_u64(0, 0, 32, (address >> 32u64) & 0xffff_ffff);
    (low, high)
}

proof fn lemma_masks()
    ensures
        low_mask(24) == 0xff_ffffu64,
        low_mask(8) == 0xffu64,
        low_mask(16) == 0xffffu64,
        low_mask(4) == 0xfu64,
        low_mask(32) == 0xffff_ffffu64,
{
    assert(((1u64 << 24u64) - 1) as u64 == 0xff_ffffu64 && ((1u64 << 8u64) - 1) as u64 == 0xffu64 && ((1u64
        << 16u64) - 1) as u64 == 0xffffu64 && ((1u64 << 4u64) - 1) as u64 == 0xfu64 && ((1u64 << 32u64) - 1) as u64
        == 0xffff_ffffu64) by (bit_vector);
}

/// Where a user segment descriptor keeps its fields: the low 16 bits of
/// the limit in bits 0..16 and its high 4 bits in bits 48..52; a non-zero
/// base in bits 16..40 (low 24 bits) and 56..64 (high 8 bits), those bits
/// being the flags' own for a zero base; and the flags' access byte
/// (bits 40..48) and flag nibble (bits 52..56) kept as they are.
pub proof fn lemma_user_descriptor_layout(flags: u64, limit: u32, base: u32)
    ensures
        ({
            let d = user_descriptor(flags, limit, base);
            &&& d & 0xffff == (limit & 0xffff) as u64
            &&& (d >> 48u64) & 0xf == ((limit >> 16u32) & 0xf) as u64
            &&& (d >> 40u64) & 0xff == (flags >> 40u64) & 0xff
            &&& (d >> 52u64) & 0xf == (flags >> 52u64) & 0xf
            &&& base != 0 ==> (d >> 16u64) & 0xff_ffff == (base & 0xff_ffff) as u64 && d >> 56u64 == (base >> 24u32) as u64
            &&& base == 0 ==> (d >> 16u64) & 0xff_ffff == (flags >> 16u64) & 0xff_ffff && d >> 56u64 == flags >> 56u64
        }),
{
    lemma_masks();
    let d = user_descriptor(flags, limit, base);
    let l = (limit & 0xffff) as u64;
    let h = ((limit >> 16u32) & 0xf) as u64;
    let b0 = (base & 0xffffff) as u64;
    let b1 = ((base >> 24u32) & 0xff) as u64;
    assert(b1 == (base >> 24u32) as u64 && l <= 0xffff && h <= 0xf && b0 <= 0xff_ffff && b1 <= 0xff) by (bit_vector)
        requires
            l == (limit & 0xffff) as u64,
            h == ((limit >> 16u32) & 0xf) as u64,
            b0 == (base & 0xffffff) as u64,
            b1 == ((base >> 24u32) & 0xff) as u64,
    ;
    let w = if base != 0 {
        (((flags & !(0xff_ffffu64 << 16u64)) | (b0 << 16u64)) & !(0xffu64 << 56u64)) | (b1 << 56u64)
    } else {
        flags
    };
    assert(d == (((w & !(0xffffu64 << 0u64)) | (l << 0u64)) & !(0xfu64 << 48u64)) | (h << 48u64));
    assert({
        let e = (((w & !(0xffffu64 << 0u64)) | (l << 0u64)) & !(0xfu64 << 48u64)) | (h << 48u64);
        &&& e & 0xffff == l
        &&& (e >> 48u64) & 0xf == h
        &&& (e >> 40u64) & 0xff == (w >> 40u64) & 0xff
        &&& (e >> 52u64) & 0xf == (w >> 52u64) & 0xf
        &&& (e >> 16u64) & 0xff_ffff == (w >> 16u64) & 0xff_ffff
        &&& e >> 56u64 == w >> 56u64
    }) by (bit_vector)
        requires
            l <= 0xffff,
            h <= 0xf,
    ;
    if base != 0 {
        assert({
            let v = (((flags & !(0xff_ffffu64 << 16u64)) | (b0 << 16u64)) & !(0xffu64 << 56u64)) | (b1 << 56u64);
            &&& (v >> 40u64) & 0xff == (flags >> 40u64) & 0xff
            &&& (v >> 52u64) & 0xf == (flags >> 52u64) & 0xf
            &&& (v >> 16u64) & 0xff_ffff == b0
            &&& v >> 56u64 == b1
        }) by (bit_vector)
            requires
                b0 <= 0xff_ffff,
                b1 <= 0xff,
        ;
    }
}

/// Where the descriptor of an available TSS keeps its fields: the limit
/// 103 (104 bytes, less one) in bits 0..16 of the low word, the address's
/// bits 0..24 in bits 16..40 and its bits 24..32 in bits 56..64, the type
/// 9 (available 64-bit TSS) in bits 40..44, nothing in bits 44..47 and the
/// present bit 47 set; the high word holds the address's upper 32 bits.
pub proof fn lemma_tss_descriptor_layout(address: u64)
    ensures
        ({
            let (low, high) = tss_descriptor(address);
            &&& low & 0xffff == 103
            &&& (low >> 16u64) & 0xff_ffff == address & 0xff_ffff
            &&& (low >> 40u64) & 0xf == 9
            &&& (low >> 44u64) & 0x7 == 0
            &&& (low >> 47u64) & 1 == 1
            &&& low >> 56u64 == (address >> 24u64) & 0xff
            &&& high == address >> 32u64
        }),
{
    lemma_masks();
    let (low, high) = tss_descriptor(address);
    let b0 = address & 0xff_ffff;
    let b1 = (address >> 24u64) & 0xff;
    let b2 = (address >> 32u64) & 0xffff_ffff;
    assert(low == (((((((((1u64 << 47u64) & !(0xff_ffffu64 << 16u64)) | (b0 << 16u64)) & !(0xffu64 << 56u64)) | (b1
        << 56u64)) & !(0xffffu64 << 0u64)) | (103u64 << 0u64)) & !(0xfu64 << 40u64)) | (0x9u64 << 40u64)));
    assert(high == ((0u64 & !(0xffff_ffffu64 << 0u64)) | (b2 << 0u64)));
    assert({
        let l = (((((((((1u64 << 47u64) & !(0xff_ffffu64 << 16u64)) | (b0 << 16u64)) & !(0xffu64 << 56u64)) | (b1
            << 56u64)) & !(0xffffu64 << 0u64)) | (103u64 << 0u64)) & !(0xfu64 << 40u64)) | (0x9u64 << 40u64));
        &&& l & 0xffff == 103
        &&& (l >> 16u64) & 0xff_ffff == address & 0xff_ffff
        &&& (l >> 40u64) & 0xf == 9
        &&& (l >> 44u64) & 0x7 == 0
        &&& (l >> 47u64) & 1 == 1
        &&& l >> 56u64 == (address >> 24u64) & 0xff
        &&& ((0u64 & !(0xffff_ffffu64 << 0u64)) | (b2 << 0u64)) == address >> 32u64
    }) by (bit_vector)
        requires
            b0 == address & 0xff_ffff,
            b1 == (address >> 24u64) & 0xff,
            b2 == (address >> 32u64) & 0xffff_ffff,
    ;
}

impl SegmentDescriptor {
    /// A user segment with `flags`, a 20-bit `limit` and a 32-bit `base`.
    pub fn new_user(flags: SegmentDescriptorFlags, limit: u32, base: u32) -> (r: SegmentDescriptor)
        ensures
            r == SegmentDescriptor::UserSegment(user_descriptor(flags.bits, limit, base)),
            r matches SegmentDescriptor::UserSegment(d) && {
                &&& d & 0xffff == (limit & 0xffff) as u64
                &&& (d >> 48u64) & 0xf == ((limit >> 16u32) & 0xf) as u64
                &&& (d >> 40u64) & 0xff == (flags.bits >> 40u64) & 0xff
                &&& (d >> 52u64) & 0xf == (flags.bits >> 52u64) & 0xf
                &&& base != 0 ==> (d >> 16u64) & 0xff_ffff == (base & 0xff_ffff) as u64 && d >> 56u64 == (base >> 24u32) as u64
                &&& base == 0 ==> (d >> 16u64) & 0xff_ffff == (flags.bits >> 16u64) & 0xff_ffff && d >> 56u64 == flags.bits >> 56u64
            },
    {
        proof {
            lemma_masks();
            lemma_user_descriptor_layout(flags.bits, limit, base);
        }
        let limit_low = limit & 0xFFFF;
        let limit_high = (limit >> 16) & 0b1111;
        let base_low = base & 0xFFFFFF;
        let base_high = (base >> 24) & 0xFF;
        assert(limit_low <= 0xffff && limit_high <= 0xf && base_low <= 0xff_ffff && base_high <= 0xff)
            by (bit_vector)
            requires
                limit_low == limit & 0xFFFF,
                limit_high == (limit >> 16) & 0b1111,
                base_low == base & 0xFFFFFF,
                base_high == (base >> 24) & 0xFF,
        ;
        let mut desc = flags.bits();
        if base != 0 {
            desc = u64_set_bits(desc, 16, 40, base_low as u64);
            desc = u64_set_bits(desc, 56, 64, base_high as u64);
        }
        desc = u64_set_bits(desc, 0, 16, limit_low as u64);
        desc = u64_set_bits(desc, 48, 52, limit_high as u64);
        SegmentDescriptor::UserSegment(desc)
    }

    /// The system segment of an available TSS at `tss`, 104 bytes long.
    pub fn new_tss_segment(tss: VirtualAddress) -> (r: SegmentDescriptor)
        ensures
            r == SegmentDescriptor::SystemSegment(tss_descriptor(tss.0).0, tss_descriptor(tss.0).1),
            r matches SegmentDescriptor::SystemSegment(low, high) && {
                &&& low & 0xffff == 103
                &&& (low >> 16u64) & 0xff_ffff == tss.0 & 0xff_ffff
                &&& (low >> 40u64) & 0xf == 9
                &&& (low >> 47u64) & 1 == 1
                &&& low >> 56u64 == (tss.0 >> 24u64) & 0xff
                &&& high == tss.0 >> 32u64
            },
    {
        proof {
            lemma_masks();
            lemma_tss_descriptor_layout(tss.0);
        }
        let ptr = tss.0;
        let mut low = SegmentDescriptorFlags::present().bits();
        let b0 = ptr & 0xff_ffff;
        let b1 = (ptr >> 24) & 0xff;
        let b2 = (ptr >> 32) & 0xffff_ffff;
        assert(b0 <= 0xff_ffff && b1 <= 0xff && b2 <= 0xffff_ffff) by (bit_vector)
            requires
                b0 == ptr & 0xff_ffff,
                b1 == (ptr >> 24) & 0xff,
                b2 == (ptr >> 32) & 0xffff_ffff,
        ;
        low = u64_set_bits(low, 16, 40, b0);
        low = u64_set_bits(low, 56, 64, b1);
        let mut high = 0x0;
        high = u64_set_bits(high, 0, 32, b2);
        low = u64_set_bits(low, 0, 16, 104 - 1);
        low = u64_set_bits(low, 40, 44, SystemSegmentType::TssAvailable.value());
        SegmentDescriptor::SystemSegment(low, high)
    }

    /// The 4 GiB code segment of protected mode.
    pub fn protected_mode_code_segment() -> (r: SegmentDescriptor)
        ensures
            r == SegmentDescriptor::UserSegment(
                user_descriptor(
                    (1u64 << 41u64) | (1u64 << 43u64) | (1u64 << 47u64) | (1u64 << 44u64) | (1u64
                        << 54u64) | (1u64 << 55u64) | (1u64 << 40u64),
                    0xFFFFF,
                    0,
                ),
            ),
    {
        let flags = SegmentDescriptorFlags::read_write().union(SegmentDescriptorFlags::executable()).union(
            SegmentDescriptorFlags::present(),
        ).union(SegmentDescriptorFlags::user_segment()).union(
            SegmentDescriptorFlags::protected_mode(),
        ).union(SegmentDescriptorFlags::granularity()).union(SegmentDescriptorFlags::accessed());
        SegmentDescriptor::new_user(flags, 0xFFFFF, 0)
    }

    /// The 4 GiB data segment of protected mode.
    pub fn protected_mode_data_segment() -> (r: SegmentDescriptor)
        ensures
            r == SegmentDescriptor::UserSegment(
                user_descriptor(
                    (1u64 << 41u64) | (1u64 << 47u64) | (1u64 << 44u64) | (1u64 << 54u64) | (1u64
                        << 55u64) | (1u64 << 40u64),
                    0xFFFFF,
                    0,
                ),
            ),
    {
        let flags = SegmentDescriptorFlags::read_write().union(SegmentDescriptorFlags::present()).union(
            SegmentDescriptorFlags::user_segment(),
        ).union(SegmentDescriptorFlags::protected_mode()).union(
            SegmentDescriptorFlags::granularity(),
        ).union(SegmentDescriptorFlags::accessed());
        SegmentDescriptor::new_user(flags, 0xFFFFF, 0)
    }

    /// The code segment of long mode; base and limit are ignored there.
    pub fn long_mode_code_segment() -> (r: SegmentDescriptor)
        ensures
            r == SegmentDescriptor::UserSegment(
                user_descriptor(
                    (1u64 << 41u64) | (1u64 << 43u64) | (1u64 << 47u64) | (1u64 << 44u64) | (1u64
                        << 53u64) | (1u64 << 40u64) | (1u64 << 55u64),
                    0,
                    0,
                ),
            ),
    {
        let flags = SegmentDescriptorFlags::read_write().union(SegmentDescriptorFlags::executable()).union(
            SegmentDescriptorFlags::present(),
        ).union(SegmentDescriptorFlags::user_segment()).union(SegmentDescriptorFlags::long_mode()).union(
            SegmentDescriptorFlags::accessed(),
        ).union(SegmentDescriptorFlags::granularity());
        SegmentDescriptor::new_user(flags, 0, 0)
    }

    /// The data segment of long mode; base and limit are ignored there.
    pub fn long_mode_data_segment() -> (r: SegmentDescriptor)
        ensures
            r == SegmentDescriptor::UserSegment(
                user_descriptor(
                    (1u64 << 41u64) | (1u64 << 47u64) | (1u64 << 44u64) | (1u64 << 40u64) | (1u64
                        << 55u64),
                    0,
                    0,
                ),
            ),
    {
        let flags = SegmentDescriptorFlags::read_write().union(SegmentDescriptorFlags::present()).union(
            SegmentDescriptorFlags::user_segment(),
        ).union(SegmentDescriptorFlags::accessed()).union(SegmentDescriptorFlags::granularity());
        SegmentDescriptor::new_user(flags, 0, 0)
    }

    pub fn kernel_code_segment() -> (r: SegmentDescriptor)
        ensures
            r == SegmentDescriptor::UserSegment(
                user_descriptor(
                    (1u64 << 41u64) | (1u64 << 43u64) | (1u64 << 47u64) | (1u64 << 44u64) | (1u64
                        << 53u64) | (1u64 << 40u64) | (1u64 << 55u64),
                    0,
                    0,
                ),
            ),
    {
        Self::long_mode_code_segment()
    }

    pub fn kernel_data_segment() -> (r: SegmentDescriptor)
        ensures
            r == SegmentDescriptor::UserSegment(
                user_descriptor(
                    (1u64 << 41u64) | (1u64 << 47u64) | (1u64 << 44u64) | (1u64 << 40u64) | (1u64
                        << 55u64),
                    0,
                    0,
                ),
            ),
    {
        Self::long_mode_data_segment()
    }

    /// The descriptor privilege level: bits 45 and 46 of the (low) entry.
    pub fn descriptor_privilege_level(self) -> (r: PrivilegeLevel)
        ensures
            privilege_number(r) == (match self {
                SegmentDescriptor::UserSegment(v) => v,
                SegmentDescriptor::SystemSegment(v, _) => v,
            } >> 45u64) & 0b11,
    {
        let value_low = match self {
            SegmentDescriptor::UserSegment(v) => v,
            SegmentDescriptor::SystemSegment(v, _) => v,
        };
        let dpl = (value_low >> 45) & 0b11;
        assert(dpl <= 3) by (bit_vector)
            requires
                dpl == (value_low >> 45) & 0b11,
        ;
        PrivilegeLevel::from_u8(dpl as u8)
    }
}

/// The number of entries of the global descriptor table.
pub const GLOBAL_DESCRIPTOR_TABLE_ENTRY_COUNT: usize = 8;

/// The global descriptor table: entry 0 is the null descriptor.
#[derive(Debug)]
pub struct GlobalDescriptorTable {
    entries: [u64; 8],
    size: usize,
}

impl GlobalDescriptorTable {
    /// The entries in use.
    pub closed spec fn used(&self) -> Seq<u64> {
        self.entries@.take(self.size as int)
    }

    pub closed spec fn wf(&self) -> bool {
        1 <= self.size <= 8
    }

    /// A table with only the null entry.
    pub fn new() -> (r: GlobalDescriptorTable)
        ensures
            r.wf(),
            r.used() == seq![0u64],
    {
        let r = GlobalDescriptorTable { entries: [0x0;8], size: 1 };
        assert(r.used() =~= seq![0u64]);
        r
    }

    /// Appends `entry`: one entry for a user segment, two for a system
    /// segment. The selector of its (first) entry comes back.
    pub fn add_entry(&mut self, entry: SegmentDescriptor) -> (r: SegmentSelector)
        requires
            old(self).wf(),
            match entry {
                SegmentDescriptor::UserSegment(_) => old(self).used().len() < 8,
                SegmentDescriptor::SystemSegment(_, _) => old(self).used().len() < 7,
            },
        ensures
            final(self).wf(),
            match entry {
                SegmentDescriptor::UserSegment(v) => final(self).used() == old(self).used().push(v),
                SegmentDescriptor::SystemSegment(low, high) => final(self).used() == old(
                    self,
                ).used().push(low).push(high),
            },
            r.0 == ((old(self).used().len() as u16) << 3u16) | (privilege_number(entry.descriptor_privilege_level_spec()) as u16),
    {
        assert(self.used().len() == self.size);
        let idx = match entry {
            SegmentDescriptor::UserSegment(val) => self.push(val),
            SegmentDescriptor::SystemSegment(low, high) => {
                let idx = self.push(low);
                self.push(high);
                idx
            },
        };
        SegmentSelector::new(idx as u16, entry.descriptor_privilege_level())
    }

    /// The table's entries, those in use first.
    pub fn entries(&self) -> (r: &[u64; 8])
        requires
            self.wf(),
        ensures
            r@.take(self.used().len() as int) == self.used(),
    {
        &self.entries
    }

    fn push(&mut self, value: u64) -> (r: usize)
        requires
            old(self).wf(),
            old(self).size < 8,
        ensures
            final(self).wf(),
            final(self).used() == old(self).used().push(value),
            r == old(self).size,
            final(self).size == old(self).size + 1,
    {
        let idx = self.size;
        self.entries[idx] = value;
        self.size = self.size + 1;
        assert(self.used() =~= old(self).used().push(value));
        idx
    }
}

/// The operand of `lgdt`: the size of the table in bytes less one, and the
/// address of its first entry.
#[derive(Debug, Clone, Copy, PartialEq, Eq, Structural)]
pub struct GlobalDescriptorTableDescriptor {
    pub size: u16,
    pub base: u64,
}

impl GlobalDescriptorTableDescriptor {
    /// The descriptor of `table`, whose entries lie at address `base`.
    pub fn new(table: &GlobalDescriptorTable, base: u64) -> (r: GlobalDescriptorTableDescriptor)
        requires
            table.wf(),
        ensures
            r.size == table.used().len() * 8 - 1,
            r.base == base,
    {
        GlobalDescriptorTableDescriptor { size: (table.size * 8 - 1) as u16, base }
    }
}

impl SegmentDescriptor {
    /// The privilege level of the descriptor.
    pub open spec fn descriptor_privilege_level_spec(self) -> PrivilegeLevel {
        let v = match self {
            SegmentDescriptor::UserSegment(v) => v,
            SegmentDescriptor::SystemSegment(v, _) => v,
        };
        let dpl = (v >> 45u64) & 0b11;
        if dpl == 0 {
            PrivilegeLevel::Ring0
        } else if dpl == 1 {
            PrivilegeLevel::Ring1
        } else if dpl == 2 {
            PrivilegeLevel::Ring2
        } else {
            PrivilegeLevel::Ring3
        }
    }
}

} // verus!
