use miniature_os::elf::{ElfBinary, ElfError, ElfHeader, InvalidElfHeader, InvalidProgramHeader, InvalidSectionHeader, LoaderCall, ProgramHeader, RecordingLoader, SegmentFlags, SegmentType};

fn put_u16(b: &mut [u8], at: usize, v: u16) {
    b[at..at + 2].copy_from_slice(&v.to_le_bytes());
}

fn put_u32(b: &mut [u8], at: usize, v: u32) {
    b[at..at + 4].copy_from_slice(&v.to_le_bytes());
}

fn put_u64(b: &mut [u8], at: usize, v: u64) {
    b[at..at + 8].copy_from_slice(&v.to_le_bytes());
}

/// A 64-bit x86_64 executable with one loadable segment and no sections.
fn binary() -> Vec<u8> {
    let mut b = vec![0u8; 0x40 + 0x38];
    b[0..4].copy_from_slice(&[0x7f, b'E', b'L', b'F']);
    b[4] = 2;
    b[5] = 1;
    b[6] = 1;
    put_u16(&mut b, 0x10, 2);
    put_u16(&mut b, 0x12, 0x3e);
    put_u64(&mut b, 0x18, 0x40_1000);
    put_u64(&mut b, 0x20, 0x40);
    put_u16(&mut b, 0x36, 0x38);
    put_u16(&mut b, 0x38, 1);
    put_u16(&mut b, 0x3a, 0x40);
    let p = 0x40;
    put_u32(&mut b, p, 1);
    put_u32(&mut b, p + 4, 5);
    put_u64(&mut b, p + 0x8, 0);
    put_u64(&mut b, p + 0x10, 0x40_0000);
    put_u64(&mut b, p + 0x18, 0x40_0000);
    put_u64(&mut b, p + 0x20, 0x78);
    put_u64(&mut b, p + 0x28, 0x1000);
    put_u64(&mut b, p + 0x30, 0x1000);
    b
}

#[test]
fn header_fields_are_read() {
    let b = binary();
    let h = ElfHeader::new(&b).unwrap();
    assert_eq!(h.entry, 0x40_1000);
    assert_eq!(h.phnum, 1);
    assert_eq!(h.shnum, 0);
    assert_eq!(h.entry_point(), 0x40_1000);
}

#[test]
fn header_checks_come_in_order() {
    let mut b = binary();
    b[0] = 0;
    assert!(matches!(ElfHeader::new(&b), Err(ElfError::InvalidElfHeader(InvalidElfHeader::InvalidMagic))));
    let mut b = binary();
    b[4] = 1;
    assert!(matches!(ElfHeader::new(&b), Err(ElfError::InvalidElfHeader(InvalidElfHeader::InvalidElfType))));
    let mut b = binary();
    b[5] = 2;
    assert!(matches!(ElfHeader::new(&b), Err(ElfError::InvalidElfHeader(InvalidElfHeader::InvalidEndianess))));
    let mut b = binary();
    put_u16(&mut b, 0x12, 0x28);
    assert!(matches!(ElfHeader::new(&b), Err(ElfError::InvalidElfHeader(InvalidElfHeader::InvalidMachine))));
}

#[test]
fn program_headers_are_read() {
    let b = binary();
    let h = ElfHeader::new(&b).unwrap();
    let phs = h.program_headers(&b).unwrap();
    assert_eq!(phs.len(), 1);
    assert_eq!(phs[0].typ, SegmentType::Load);
    assert!(phs[0].is_loadable());
    assert_eq!(phs[0].virtual_addr(), 0x40_0000);
    assert_eq!(phs[0].mem_size(), 0x1000);
    assert!(phs[0].flags().is_executable());
    assert!(phs[0].flags().is_readable());
    assert!(!phs[0].flags().is_writable());
    let binary = ElfBinary::new(&b).unwrap();
    assert_eq!(binary.entry_point(), 0x40_1000);
    assert_eq!(binary.program_headers().unwrap().len(), 1);
    assert_eq!(binary.section_headers().unwrap().len(), 0);
}

#[test]
fn alignment_must_be_a_power_of_two() {
    let mut b = binary();
    put_u64(&mut b, 0x40 + 0x30, 0x3000);
    assert_eq!(
        ProgramHeader::new(&b[0x40..]),
        Err(ElfError::InvalidProgramHeader(InvalidProgramHeader::InvalidAlignment))
    );
    let mut b = binary();
    put_u32(&mut b, 0x40, 0x1234);
    assert_eq!(
        ProgramHeader::new(&b[0x40..]),
        Err(ElfError::InvalidProgramHeader(InvalidProgramHeader::InvalidSegmentType))
    );
}

#[test]
fn segment_flags_read_as_letters() {
    assert_eq!(SegmentFlags::from_bits(4 | 1).to_string(), "RX");
    assert_eq!(SegmentFlags::from_bits(7).to_string(), "RWX");
    assert_eq!(SegmentFlags::from_bits(2).to_string(), "W");
    assert_eq!(SegmentFlags::from_bits(0).to_string(), "NONE");
}

#[test]
fn load_allocates_each_loadable_segment() {
    let b = binary();
    let binary = ElfBinary::new(&b).unwrap();
    let phs = binary.program_headers().unwrap();
    let mut loader = RecordingLoader::new();
    assert!(binary.load(&mut loader).is_ok());
    assert_eq!(loader.calls, vec![LoaderCall::Allocate(phs[0])]);
}

#[test]
fn program_header_table_past_the_end_is_refused() {
    let mut b = binary();
    put_u64(&mut b, 0x20, u64::MAX - 0x100);
    put_u16(&mut b, 0x38, 10);
    let h = ElfHeader::new(&b).unwrap();
    assert!(matches!(
        h.program_headers(&b),
        Err(ElfError::InvalidSectionHeader(InvalidSectionHeader::InvalidHeaderOffset))
    ));
    let binary = ElfBinary::new(&b).unwrap();
    assert!(matches!(
        binary.program_headers(),
        Err(ElfError::InvalidSectionHeader(InvalidSectionHeader::InvalidHeaderOffset))
    ));
}
